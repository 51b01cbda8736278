//! Combination of the grouper's per-part measures into multi-part measures:
//! each measure gets its directives, one slice per part, the span covering
//! every part's source, and every diagnostic that concerns it.

use crate::ast::grouped::{
    GroupedMeasure, GroupedPart, GroupedScore, GroupedTrack, Lyrics, MeasureDirectives,
    MultiPartMeasure, NoteEvent, Notes, PartRow, PartSlice, TimeSignature, row_slice, track_part,
};
use crate::ast::parsed::{KeyChange, PartKind, Soundfont, Syllable};
use crate::compiler::types::{clone_diagnostics, diagnostics_view};
use crate::desugar::lines::clone_opt_string;
use crate::desugar::lines::opt_str_view;
use crate::error::{
    Diagnostic, DiagnosticView, RecoverableError, RecoverableErrorKind, Span, Warning,
    count_mismatch_message, directives_missing_message, source_span_missing_message,
    timed_part_missing_message,
};
use vstd::prelude::*;

verus! {

pub struct SyllableView {
    pub text: Seq<char>,
    pub held: bool,
}

pub open spec fn syllables_view(s: Seq<Syllable>) -> Seq<SyllableView> {
    s.map_values(|x: Syllable| SyllableView { text: x.text@, held: x.held })
}

pub struct SliceView {
    pub name: Option<Seq<char>>,
    pub kind: PartKind,
    pub soundfont: Soundfont,
    pub volume: u8,
    pub octave_offset: i8,
    pub events: Seq<NoteEvent>,
    pub lyrics: Seq<Seq<SyllableView>>,
    pub has_error: bool,
    pub resolution_multiplier: u32,
    pub beat_group_size: u32,
}

impl View for PartSlice {
    type V = SliceView;

    open spec fn view(&self) -> SliceView {
        SliceView {
            name: opt_str_view(self.name),
            kind: self.kind,
            soundfont: self.soundfont,
            volume: self.volume,
            octave_offset: self.octave_offset,
            events: self.notes.events@,
            lyrics: self.lyrics@.map_values(|l: Lyrics| syllables_view(l.syllables@)),
            has_error: self.has_error,
            resolution_multiplier: self.resolution_multiplier,
            beat_group_size: self.beat_group_size,
        }
    }
}

pub struct MeasureView {
    pub time_signature: Option<TimeSignature>,
    pub bpm: Option<u32>,
    pub key: Option<KeyChange>,
    pub label: Option<Seq<char>>,
    pub merge_duplicate_measures_across_parts: bool,
    pub hide_resting_parts: bool,
    pub system_break: bool,
    pub parts: Seq<SliceView>,
    pub source_span: Span,
    pub diagnostics: Seq<DiagnosticView>,
}

pub open spec fn parts_view(s: Seq<PartRow>) -> Seq<SliceView> {
    s.map_values(|r: PartRow| row_slice(r)@)
}

impl View for MultiPartMeasure {
    type V = MeasureView;

    open spec fn view(&self) -> MeasureView {
        MeasureView {
            time_signature: self.time_signature,
            bpm: self.bpm,
            key: self.key,
            label: opt_str_view(self.label),
            merge_duplicate_measures_across_parts: self.merge_duplicate_measures_across_parts,
            hide_resting_parts: self.hide_resting_parts,
            system_break: self.system_break,
            parts: parts_view(self.parts@),
            source_span: self.source_span,
            diagnostics: diagnostics_view(self.diagnostics@),
        }
    }
}

pub open spec fn measures_view(s: Seq<MultiPartMeasure>) -> Seq<MeasureView> {
    s.map_values(|m: MultiPartMeasure| m@)
}

pub open spec fn warning_view(w: Warning) -> DiagnosticView {
    DiagnosticView { is_error: false, kind: None, span: w.span, message: w.message@ }
}

pub open spec fn error_diag(e: RecoverableError) -> DiagnosticView {
    DiagnosticView { is_error: true, kind: Some(e.kind), span: e.span, message: e.message@ }
}

pub open spec fn opt_warning(o: Option<Warning>) -> Seq<DiagnosticView> {
    match o {
        Some(w) => seq![warning_view(w)],
        None => Seq::empty(),
    }
}

pub open spec fn opt_error(o: Option<RecoverableError>) -> Seq<DiagnosticView> {
    match o {
        Some(e) => seq![error_diag(e)],
        None => Seq::empty(),
    }
}

/// One part's diagnostics for one measure: lyrics warnings, the beat
/// overflow warning, the lex, lyrics-line and leading-extension errors, then
/// the dotted-eighth and chord diagnostics.
pub open spec fn part_measure_diags(m: GroupedMeasure) -> Seq<DiagnosticView> {
    m.lyrics_error@.map_values(|w: Warning| warning_view(w)) + opt_warning(m.beat_overflow_error)
        + opt_error(m.lex_error) + opt_error(m.lyrics_parse_error) + opt_error(
        m.extension_no_preceding_event_error,
    ) + diagnostics_view(m.dotted_eighth_errors@) + diagnostics_view(m.chord_errors@)
}

pub open spec fn has_error_diag(s: Seq<Diagnostic>) -> bool {
    exists|i: int| 0 <= i < s.len() && #[trigger] s[i] is Error
}

/// The measure has an error (warnings aside).
pub open spec fn measure_error(m: GroupedMeasure) -> bool {
    m.lex_error is Some || m.lyrics_parse_error is Some || m.extension_no_preceding_event_error is Some
        || has_error_diag(m.dotted_eighth_errors@) || has_error_diag(m.chord_errors@)
}

fn clone_warnings_as_diagnostics(v: &Vec<Warning>, out: &mut Vec<Diagnostic>)
    ensures
        diagnostics_view(final(out)@) == diagnostics_view(old(out)@) + v@.map_values(
            |w: Warning| warning_view(w),
        ),
{
    let ghost o0 = diagnostics_view(out@);
    for i in 0..v.len()
        invariant
            diagnostics_view(out@) == o0 + v@.take(i as int).map_values(|w: Warning| warning_view(w)),
    {
        let ghost before = out@;
        out.push(Diagnostic::Warning(v[i].clone()));
        assert(diagnostics_view(out@) =~= diagnostics_view(before).push(warning_view(v@[i as int])));
        assert(v@.take(i + 1).map_values(|w: Warning| warning_view(w)) =~= v@.take(i as int).map_values(
            |w: Warning| warning_view(w),
        ).push(warning_view(v@[i as int])));
    }
    assert(v@.take(v@.len() as int) =~= v@);
}

fn append_diagnostics(v: &Vec<Diagnostic>, out: &mut Vec<Diagnostic>)
    ensures
        diagnostics_view(final(out)@) == diagnostics_view(old(out)@) + diagnostics_view(v@),
{
    let mut c = clone_diagnostics(v);
    let ghost o0 = out@;
    let ghost c0 = c@;
    out.append(&mut c);
    assert(diagnostics_view(out@) =~= diagnostics_view(o0) + diagnostics_view(c0));
}

fn push_opt_error(o: &Option<RecoverableError>, out: &mut Vec<Diagnostic>)
    ensures
        diagnostics_view(final(out)@) == diagnostics_view(old(out)@) + opt_error(*o),
{
    let ghost o0 = out@;
    if let Some(e) = o {
        out.push(Diagnostic::Error(e.clone()));
        assert(diagnostics_view(out@) =~= diagnostics_view(o0) + opt_error(*o));
    } else {
        assert(diagnostics_view(out@) =~= diagnostics_view(o0) + opt_error(*o));
    }
}

fn collect_part_measure_diagnostics(m: Option<&GroupedMeasure>) -> (v: Vec<Diagnostic>)
    ensures
        diagnostics_view(v@) == match m {
            Some(x) => part_measure_diags(*x),
            None => Seq::<DiagnosticView>::empty(),
        },
{
    let mut out: Vec<Diagnostic> = Vec::new();
    assert(diagnostics_view(out@) =~= Seq::<DiagnosticView>::empty());
    if let Some(m) = m {
        clone_warnings_as_diagnostics(&m.lyrics_error, &mut out);
        let ghost o1 = out@;
        if let Some(w) = &m.beat_overflow_error {
            out.push(Diagnostic::Warning(w.clone()));
        }
        assert(diagnostics_view(out@) =~= diagnostics_view(o1) + opt_warning(m.beat_overflow_error));
        push_opt_error(&m.lex_error, &mut out);
        push_opt_error(&m.lyrics_parse_error, &mut out);
        push_opt_error(&m.extension_no_preceding_event_error, &mut out);
        append_diagnostics(&m.dotted_eighth_errors, &mut out);
        append_diagnostics(&m.chord_errors, &mut out);
    }
    out
}

fn any_error(v: &Vec<Diagnostic>) -> (b: bool)
    ensures
        b == has_error_diag(v@),
{
    for i in 0..v.len()
        invariant
            forall|k: int| 0 <= k < i ==> !(#[trigger] v@[k] is Error),
    {
        if v[i].is_error() {
            return true;
        }
    }
    false
}

fn measure_has_error(m: &GroupedMeasure) -> (b: bool)
    ensures
        b == measure_error(*m),
{
    m.lex_error.is_some() || m.lyrics_parse_error.is_some() || m.extension_no_preceding_event_error.is_some()
        || any_error(&m.dotted_eighth_errors) || any_error(&m.chord_errors)
}

/// The lyrics a part's slice carries: the paired syllables of every verse
/// for parts with lyrics, none otherwise.
pub open spec fn part_lyrics(kind: PartKind, m: GroupedMeasure) -> Seq<Seq<SyllableView>> {
    if kind == PartKind::NotesWithLyrics || kind == PartKind::Lyrics {
        m.paired_lyrics@.map_values(|v: Vec<Syllable>| syllables_view(v@))
    } else {
        Seq::empty()
    }
}

pub open spec fn slice_of(p: GroupedPart, m: GroupedMeasure) -> SliceView {
    SliceView {
        name: opt_str_view(p.name),
        kind: p.kind,
        soundfont: p.soundfont,
        volume: p.volume,
        octave_offset: p.octave_offset,
        events: m.notes.events@,
        lyrics: part_lyrics(p.kind, m),
        has_error: measure_error(m),
        resolution_multiplier: m.resolution_multiplier,
        beat_group_size: m.beat_group_size,
    }
}

pub open spec fn zero_span() -> Span {
    Span { start: 0, end: 0 }
}

pub open spec fn missing_part_measure_diag() -> DiagnosticView {
    DiagnosticView {
        is_error: true,
        kind: Some(RecoverableErrorKind::TimedPartMeasureMissing),
        span: zero_span(),
        message: timed_part_missing_message(),
    }
}

pub open spec fn has_measure(p: GroupedPart, idx: int) -> bool {
    0 <= idx < p.measures@.len()
}

/// The slices of the first `n` parts at measure `idx`, and an error for each
/// part that has no such measure.
pub open spec fn part_rows_upto(tracks: Seq<GroupedTrack>, idx: int, n: int) -> (Seq<SliceView>, Seq<DiagnosticView>)
    decreases n,
{
    if n <= 0 {
        (Seq::empty(), Seq::empty())
    } else {
        let (rows, diags) = part_rows_upto(tracks, idx, n - 1);
        let p = track_part(tracks[n - 1]);
        if has_measure(p, idx) {
            (rows.push(slice_of(p, p.measures@[idx])), diags)
        } else {
            (rows, diags.push(missing_part_measure_diag()))
        }
    }
}

/// The span covering measure `idx` of the first `n` parts that have it.
pub open spec fn span_upto(tracks: Seq<GroupedTrack>, idx: int, n: int) -> Option<Span>
    decreases n,
{
    if n <= 0 {
        None
    } else {
        let prev = span_upto(tracks, idx, n - 1);
        let p = track_part(tracks[n - 1]);
        if has_measure(p, idx) {
            let s = p.measures@[idx].source_span;
            Some(
                match prev {
                    None => s,
                    Some(a) => Span {
                        start: if a.start <= s.start {
                            a.start
                        } else {
                            s.start
                        },
                        end: if a.end >= s.end {
                            a.end
                        } else {
                            s.end
                        },
                    },
                },
            )
        } else {
            prev
        }
    }
}

/// The diagnostics of measure `idx` of the first `n` parts, in part order.
pub open spec fn part_diags_upto(tracks: Seq<GroupedTrack>, idx: int, n: int) -> Seq<DiagnosticView>
    decreases n,
{
    if n <= 0 {
        Seq::empty()
    } else {
        let p = track_part(tracks[n - 1]);
        part_diags_upto(tracks, idx, n - 1) + if has_measure(p, idx) {
            part_measure_diags(p.measures@[idx])
        } else {
            Seq::empty()
        }
    }
}

pub struct DirectivesView {
    pub time_signature: Option<TimeSignature>,
    pub bpm: Option<u32>,
    pub key: Option<KeyChange>,
    pub label: Option<Seq<char>>,
    pub merge_duplicate_measures_across_parts: bool,
    pub hide_resting_parts: bool,
    pub system_break: bool,
}

impl View for MeasureDirectives {
    type V = DirectivesView;

    open spec fn view(&self) -> DirectivesView {
        DirectivesView {
            time_signature: self.time_signature,
            bpm: self.bpm,
            key: self.key,
            label: opt_str_view(self.label),
            merge_duplicate_measures_across_parts: self.merge_duplicate_measures_across_parts,
            hide_resting_parts: self.hide_resting_parts,
            system_break: self.system_break,
        }
    }
}

/// The directives used for a measure with no directive entry.
pub open spec fn fallback_directives() -> DirectivesView {
    DirectivesView {
        time_signature: None,
        bpm: None,
        key: None,
        label: None,
        merge_duplicate_measures_across_parts: false,
        hide_resting_parts: false,
        system_break: false,
    }
}

/// Measure `idx` across every part: its directives (or the fallback and an
/// error), one slice per part that has it, the span covering their sources
/// (or an empty span and an error), and its diagnostics: the directive,
/// span and parse errors, every part's diagnostics, then an error per part
/// missing the measure.
pub open spec fn combined_measure(gs: GroupedScore, idx: int, fallback: DirectivesView) -> MeasureView {
    let tracks = gs.parts@;
    let n = tracks.len() as int;
    let has_dir = 0 <= idx < gs.measure_directives@.len();
    let d = if has_dir {
        gs.measure_directives@[idx]@
    } else {
        fallback
    };
    let dir_err = if has_dir {
        Seq::empty()
    } else {
        seq![
            DiagnosticView {
                is_error: true,
                kind: Some(RecoverableErrorKind::MeasureDirectivesMissing),
                span: zero_span(),
                message: directives_missing_message(),
            },
        ]
    };
    let span = span_upto(tracks, idx, n);
    let span_err = match span {
        Some(_) => Seq::empty(),
        None => seq![
            DiagnosticView {
                is_error: true,
                kind: Some(RecoverableErrorKind::SourceSpanMissing),
                span: zero_span(),
                message: source_span_missing_message(idx as usize),
            },
        ],
    };
    let parse_err = if 0 <= idx < gs.per_measure_parse_errors@.len() {
        opt_error(gs.per_measure_parse_errors@[idx])
    } else {
        Seq::empty()
    };
    let (rows, row_diags) = part_rows_upto(tracks, idx, n);
    MeasureView {
        time_signature: d.time_signature,
        bpm: d.bpm,
        key: d.key,
        label: d.label,
        merge_duplicate_measures_across_parts: d.merge_duplicate_measures_across_parts,
        hide_resting_parts: d.hide_resting_parts,
        system_break: d.system_break,
        parts: rows,
        source_span: match span {
            Some(s) => s,
            None => zero_span(),
        },
        diagnostics: dir_err + span_err + parse_err + part_diags_upto(tracks, idx, n) + row_diags,
    }
}

fn clone_events(v: &Vec<NoteEvent>) -> (r: Vec<NoteEvent>)
    ensures
        r@ == v@,
{
    let mut r: Vec<NoteEvent> = Vec::new();
    for i in 0..v.len()
        invariant
            r@ == v@.take(i as int),
    {
        r.push(v[i]);
        assert(r@ =~= v@.take(i + 1));
    }
    assert(v@.take(v@.len() as int) =~= v@);
    r
}

fn clone_syllables(v: &Vec<Syllable>) -> (r: Vec<Syllable>)
    ensures
        syllables_view(r@) == syllables_view(v@),
{
    let mut r: Vec<Syllable> = Vec::new();
    for i in 0..v.len()
        invariant
            syllables_view(r@) == syllables_view(v@).take(i as int),
    {
        let ghost before = r@;
        r.push(v[i].clone());
        assert(syllables_view(r@) =~= syllables_view(before).push(
            SyllableView { text: v@[i as int].text@, held: v@[i as int].held },
        ));
        assert(syllables_view(v@).take(i + 1) =~= syllables_view(v@).take(i as int).push(
            SyllableView { text: v@[i as int].text@, held: v@[i as int].held },
        ));
    }
    assert(syllables_view(v@).take(v@.len() as int) =~= syllables_view(v@));
    r
}

fn slice_lyrics(kind: PartKind, m: &GroupedMeasure) -> (r: Vec<Lyrics>)
    ensures
        r@.map_values(|l: Lyrics| syllables_view(l.syllables@)) == part_lyrics(kind, *m),
{
    let mut r: Vec<Lyrics> = Vec::new();
    if kind == PartKind::NotesWithLyrics || kind == PartKind::Lyrics {
        let ghost target = m.paired_lyrics@.map_values(|v: Vec<Syllable>| syllables_view(v@));
        for i in 0..m.paired_lyrics.len()
            invariant
                target == m.paired_lyrics@.map_values(|v: Vec<Syllable>| syllables_view(v@)),
                r@.map_values(|l: Lyrics| syllables_view(l.syllables@)) == target.take(i as int),
        {
            let ghost before = r@;
            r.push(Lyrics { syllables: clone_syllables(&m.paired_lyrics[i]) });
            assert(r@.map_values(|l: Lyrics| syllables_view(l.syllables@)) =~= before.map_values(
                |l: Lyrics| syllables_view(l.syllables@),
            ).push(target[i as int]));
            assert(target.take(i + 1) =~= target.take(i as int).push(target[i as int]));
        }
        assert(target.take(m.paired_lyrics@.len() as int) =~= target);
    } else {
        assert(r@.map_values(|l: Lyrics| syllables_view(l.syllables@)) =~= Seq::<Seq<SyllableView>>::empty());
    }
    r
}

fn build_part_rows(grouped_tracks: &Vec<GroupedTrack>, measure_idx: usize) -> (r: (Vec<PartRow>, Vec<Diagnostic>))
    ensures
        (parts_view(r.0@), diagnostics_view(r.1@)) == part_rows_upto(
            grouped_tracks@,
            measure_idx as int,
            grouped_tracks@.len() as int,
        ),
{
    let mut part_rows: Vec<PartRow> = Vec::new();
    let mut diagnostics: Vec<Diagnostic> = Vec::new();
    for t in 0..grouped_tracks.len()
        invariant
            (parts_view(part_rows@), diagnostics_view(diagnostics@)) == part_rows_upto(
                grouped_tracks@,
                measure_idx as int,
                t as int,
            ),
    {
        match &grouped_tracks[t] {
            GroupedTrack::Timed(part) => {
                if measure_idx >= part.measures.len() {
                    let ghost before = diagnostics@;
                    diagnostics.push(
                        Diagnostic::Error(RecoverableError::timed_part_measure_missing(Span::new(0, 0))),
                    );
                    assert(diagnostics_view(diagnostics@) =~= diagnostics_view(before).push(
                        missing_part_measure_diag(),
                    ));
                } else {
                    let measure = &part.measures[measure_idx];
                    let slice = PartSlice {
                        name: clone_opt_string(&part.name),
                        kind: part.kind,
                        soundfont: part.soundfont,
                        volume: part.volume,
                        octave_offset: part.octave_offset,
                        notes: Notes { events: clone_events(&measure.notes.events) },
                        lyrics: slice_lyrics(part.kind, measure),
                        has_error: measure_has_error(measure),
                        resolution_multiplier: measure.resolution_multiplier,
                        beat_group_size: measure.beat_group_size,
                    };
                    assert(slice@ == slice_of(*part, *measure));
                    let ghost before = part_rows@;
                    part_rows.push(PartRow::Timed(slice));
                    assert(parts_view(part_rows@) =~= parts_view(before).push(slice_of(*part, *measure)));
                }
            },
        }
    }
    (part_rows, diagnostics)
}

fn combine_measure(
    grouped_score: &GroupedScore,
    measure_idx: usize,
    directives_fallback: &MeasureDirectives,
) -> (r: MultiPartMeasure)
    ensures
        r@ == combined_measure(*grouped_score, measure_idx as int, directives_fallback@),
{
    let ghost tracks = grouped_score.parts@;
    let has_dir = measure_idx < grouped_score.measure_directives.len();
    let directives = if has_dir {
        &grouped_score.measure_directives[measure_idx]
    } else {
        directives_fallback
    };
    let mut diagnostics: Vec<Diagnostic> = Vec::new();
    if !has_dir {
        diagnostics.push(
            Diagnostic::Error(RecoverableError::measure_directives_missing(Span::new(0, 0))),
        );
    }
    let ghost d0 = diagnostics_view(diagnostics@);
    let ghost dir_err = if has_dir {
        Seq::<DiagnosticView>::empty()
    } else {
        seq![
            DiagnosticView {
                is_error: true,
                kind: Some(RecoverableErrorKind::MeasureDirectivesMissing),
                span: zero_span(),
                message: directives_missing_message(),
            },
        ]
    };
    assert(d0 =~= dir_err);
    let (part_rows, mut part_row_diagnostics) = build_part_rows(&grouped_score.parts, measure_idx);
    let mut span: Option<Span> = None;
    for t in 0..grouped_score.parts.len()
        invariant
            tracks == grouped_score.parts@,
            span == span_upto(tracks, measure_idx as int, t as int),
    {
        match &grouped_score.parts[t] {
            GroupedTrack::Timed(part) => {
                if measure_idx < part.measures.len() {
                    let s = part.measures[measure_idx].source_span;
                    span = Some(
                        match span {
                            None => s,
                            Some(a) => Span::new(
                                if a.start <= s.start {
                                    a.start
                                } else {
                                    s.start
                                },
                                if a.end >= s.end {
                                    a.end
                                } else {
                                    s.end
                                },
                            ),
                        },
                    );
                }
            },
        }
    }
    let ghost d1 = diagnostics_view(diagnostics@);
    let source_span = match span {
        Some(s) => s,
        None => {
            diagnostics.push(
                Diagnostic::Error(RecoverableError::source_span_missing(Span::new(0, 0), measure_idx)),
            );
            Span::new(0, 0)
        },
    };
    let ghost d2 = diagnostics_view(diagnostics@);
    let ghost span_err = match span {
        Some(_) => Seq::<DiagnosticView>::empty(),
        None => seq![
            DiagnosticView {
                is_error: true,
                kind: Some(RecoverableErrorKind::SourceSpanMissing),
                span: zero_span(),
                message: source_span_missing_message(measure_idx),
            },
        ],
    };
    assert(d2 =~= d0 + span_err);
    if measure_idx < grouped_score.per_measure_parse_errors.len() {
        push_opt_error(&grouped_score.per_measure_parse_errors[measure_idx], &mut diagnostics);
    }
    let ghost d3 = diagnostics_view(diagnostics@);
    let ghost parse_err = if measure_idx < grouped_score.per_measure_parse_errors@.len() {
        opt_error(grouped_score.per_measure_parse_errors@[measure_idx as int])
    } else {
        Seq::<DiagnosticView>::empty()
    };
    assert(d3 =~= d2 + parse_err);
    for t in 0..grouped_score.parts.len()
        invariant
            tracks == grouped_score.parts@,
            diagnostics_view(diagnostics@) == d3 + part_diags_upto(tracks, measure_idx as int, t as int),
    {
        let ghost before = diagnostics_view(diagnostics@);
        match &grouped_score.parts[t] {
            GroupedTrack::Timed(part) => {
                let m = if measure_idx < part.measures.len() {
                    Some(&part.measures[measure_idx])
                } else {
                    None
                };
                let mut collected = collect_part_measure_diagnostics(m);
                let ghost c0 = collected@;
                diagnostics.append(&mut collected);
                assert(diagnostics_view(diagnostics@) =~= before + diagnostics_view(c0));
            },
        }
    }
    let ghost d4 = diagnostics@;
    let ghost r0 = part_row_diagnostics@;
    diagnostics.append(&mut part_row_diagnostics);
    assert(diagnostics_view(diagnostics@) =~= diagnostics_view(d4) + diagnostics_view(r0));
    assert(diagnostics_view(diagnostics@) =~= dir_err + span_err + parse_err + part_diags_upto(
        tracks,
        measure_idx as int,
        tracks.len() as int,
    ) + diagnostics_view(r0));
    MultiPartMeasure {
        time_signature: directives.time_signature,
        bpm: directives.bpm,
        key: directives.key,
        label: clone_opt_string(&directives.label),
        merge_duplicate_measures_across_parts: directives.merge_duplicate_measures_across_parts,
        hide_resting_parts: directives.hide_resting_parts,
        system_break: directives.system_break,
        parts: part_rows,
        source_span,
        diagnostics,
    }
}

pub open spec fn track_count(t: GroupedTrack) -> int {
    track_part(t).measures@.len() as int
}

/// The largest measure count among the first `n` parts.
pub open spec fn max_count(tracks: Seq<GroupedTrack>, n: int) -> int
    decreases n,
{
    if n <= 0 {
        0
    } else {
        let m = max_count(tracks, n - 1);
        if track_count(tracks[n - 1]) > m {
            track_count(tracks[n - 1])
        } else {
            m
        }
    }
}

/// A part name as `{:?}` prints an `Option<String>`.
pub open spec fn debug_name(o: Option<Seq<char>>) -> Seq<char> {
    match o {
        Some(n) => "Some("@ + crate::text::debug_str(n) + ")"@,
        None => "None"@,
    }
}

pub open spec fn mismatch_diag(t: GroupedTrack, expected: int) -> DiagnosticView {
    DiagnosticView {
        is_error: true,
        kind: Some(RecoverableErrorKind::PartMeasureCountMismatch),
        span: zero_span(),
        message: count_mismatch_message(
            debug_name(opt_str_view(track_part(t).name)),
            track_count(t) as usize,
            expected as usize,
        ),
    }
}

/// An error for each part after the first, among the first `n`, whose
/// measure count differs from the first part's.
pub open spec fn mismatch_diags(tracks: Seq<GroupedTrack>, expected: int, n: int) -> Seq<DiagnosticView>
    decreases n,
{
    if n <= 1 {
        Seq::empty()
    } else {
        mismatch_diags(tracks, expected, n - 1) + if track_count(tracks[n - 1]) != expected {
            seq![mismatch_diag(tracks[n - 1], expected)]
        } else {
            Seq::empty()
        }
    }
}

/// The combined score: as many measures as the longest part has, each
/// combined across the parts, and an error for every part whose measure
/// count differs from the first part's. No parts, no measures.
pub open spec fn combined(gs: GroupedScore) -> (Seq<MeasureView>, Seq<DiagnosticView>) {
    let tracks = gs.parts@;
    if tracks.len() == 0 {
        (Seq::empty(), Seq::empty())
    } else {
        let expected = track_count(tracks[0]);
        (
            Seq::new(
                max_count(tracks, tracks.len() as int) as nat,
                |i: int| combined_measure(gs, i, fallback_directives()),
            ),
            mismatch_diags(tracks, expected, tracks.len() as int),
        )
    }
}

fn debug_track_name(name: &Option<String>) -> (s: String)
    ensures
        s@ == debug_name(opt_str_view(*name)),
{
    match name {
        Some(n) => {
            let quoted = crate::text::debug_quoted(n.as_str());
            let mut s = String::from_str("Some(");
            s.append(quoted.as_str());
            s.append(")");
            s
        },
        None => {
            let s = String::from_str("None");
            proof {
                reveal_strlit("None");
            }
            s
        },
    }
}

/// Combines the grouper's parts into multi-part measures, with the
/// diagnostics that concern the score as a whole.
pub fn combine(grouped_score: &GroupedScore) -> (r: (Vec<MultiPartMeasure>, Vec<Diagnostic>))
    ensures
        (measures_view(r.0@), diagnostics_view(r.1@)) == combined(*grouped_score),
{
    let ghost tracks = grouped_score.parts@;
    if grouped_score.parts.len() == 0 {
        let r: (Vec<MultiPartMeasure>, Vec<Diagnostic>) = (Vec::new(), Vec::new());
        assert(measures_view(r.0@) =~= Seq::<MeasureView>::empty());
        assert(diagnostics_view(r.1@) =~= Seq::<DiagnosticView>::empty());
        return r;
    }
    let expected_len = grouped_score.parts[0].measure_count();
    let mut max_len: usize = 0;
    for t in 0..grouped_score.parts.len()
        invariant
            tracks == grouped_score.parts@,
            max_len == max_count(tracks, t as int),
    {
        let c = grouped_score.parts[t].measure_count();
        if c > max_len {
            max_len = c;
        }
    }
    let mut mismatch_diagnostics: Vec<Diagnostic> = Vec::new();
    assert(diagnostics_view(mismatch_diagnostics@) =~= mismatch_diags(tracks, expected_len as int, 1));
    for t in 1..grouped_score.parts.len()
        invariant
            tracks == grouped_score.parts@,
            tracks.len() >= 1,
            expected_len == track_count(tracks[0]),
            diagnostics_view(mismatch_diagnostics@) == mismatch_diags(tracks, expected_len as int, t as int),
    {
        let track = &grouped_score.parts[t];
        let count = track.measure_count();
        if count != expected_len {
            let name = debug_track_name(track.track_name());
            let ghost before = mismatch_diagnostics@;
            mismatch_diagnostics.push(
                Diagnostic::Error(
                    RecoverableError::part_measure_count_mismatch(
                        Span::new(0, 0),
                        name.as_str(),
                        count,
                        expected_len,
                    ),
                ),
            );
            assert(diagnostics_view(mismatch_diagnostics@) =~= diagnostics_view(before).push(
                mismatch_diag(tracks[t as int], expected_len as int),
            ));
        } else {
            assert(mismatch_diags(tracks, expected_len as int, t + 1) =~= mismatch_diags(
                tracks,
                expected_len as int,
                t as int,
            ));
        }
    }
    let directives_fallback = MeasureDirectives {
        time_signature: None,
        bpm: None,
        key: None,
        label: None,
        merge_duplicate_measures_across_parts: false,
        hide_resting_parts: false,
        system_break: false,
    };
    let mut combined_measures: Vec<MultiPartMeasure> = Vec::new();
    for measure_idx in 0..max_len
        invariant
            directives_fallback@ == fallback_directives(),
            measures_view(combined_measures@) == Seq::new(
                measure_idx as nat,
                |i: int| combined_measure(*grouped_score, i, fallback_directives()),
            ),
    {
        let ghost before = combined_measures@;
        let m = combine_measure(grouped_score, measure_idx, &directives_fallback);
        assert(m@ == combined_measure(*grouped_score, measure_idx as int, fallback_directives()));
        combined_measures.push(m);
        assert(measures_view(combined_measures@) =~= measures_view(before).push(
            combined_measure(*grouped_score, measure_idx as int, fallback_directives()),
        ));
        assert(measures_view(combined_measures@) =~= Seq::new(
            (measure_idx + 1) as nat,
            |i: int| combined_measure(*grouped_score, i, fallback_directives()),
        ));
    }
    (combined_measures, mismatch_diagnostics)
}

proof fn lemma_part_rows_account(tracks: Seq<GroupedTrack>, idx: int, n: int)
    requires
        0 <= n,
    ensures
        part_rows_upto(tracks, idx, n).0.len() + part_rows_upto(tracks, idx, n).1.len() == n,
        (forall|t: int| 0 <= t < n ==> has_measure(track_part(#[trigger] tracks[t]), idx)) ==> (
        part_rows_upto(tracks, idx, n).0.len() == n && part_rows_upto(tracks, idx, n).1.len() == 0),
    decreases n,
{
    if n > 0 {
        lemma_part_rows_account(tracks, idx, n - 1);
    }
}

/// Every part is accounted for in every combined measure: it contributes a
/// slice, or an error saying it has no such measure.
pub proof fn lemma_every_part_accounted(gs: GroupedScore, idx: int, fallback: DirectivesView)
    ensures
        combined_measure(gs, idx, fallback).parts.len() + part_rows_upto(
            gs.parts@,
            idx,
            gs.parts@.len() as int,
        ).1.len() == gs.parts@.len(),
{
    lemma_part_rows_account(gs.parts@, idx, gs.parts@.len() as int);
}

proof fn lemma_uniform_counts(tracks: Seq<GroupedTrack>, c: int, n: int)
    requires
        0 <= n <= tracks.len(),
        forall|t: int| 0 <= t < tracks.len() ==> #[trigger] track_count(tracks[t]) == c,
        c >= 0,
    ensures
        mismatch_diags(tracks, c, n) == Seq::<DiagnosticView>::empty(),
        n > 0 ==> max_count(tracks, n) == c,
    decreases n,
{
    if n > 0 {
        lemma_uniform_counts(tracks, c, n - 1);
        assert(track_count(tracks[n - 1]) == c);
        assert(max_count(tracks, 0) == 0);
        if n > 1 {
            assert(mismatch_diags(tracks, c, n) =~= Seq::<DiagnosticView>::empty());
        }
    }
}

/// When every part has the same number of measures, combination reports no
/// count mismatch, and every measure carries one slice per part and no
/// missing-measure error.
pub proof fn lemma_uniform_parts_combine_cleanly(gs: GroupedScore)
    requires
        gs.parts@.len() > 0,
        forall|t: int| 0 <= t < gs.parts@.len() ==> #[trigger] track_count(gs.parts@[t]) == track_count(
            gs.parts@[0],
        ),
    ensures
        combined(gs).1 == Seq::<DiagnosticView>::empty(),
        combined(gs).0.len() == track_count(gs.parts@[0]),
        forall|i: int|
            0 <= i < combined(gs).0.len() ==> (#[trigger] combined(gs).0[i]).parts.len() == gs.parts@.len()
                && part_rows_upto(gs.parts@, i, gs.parts@.len() as int).1.len() == 0,
{
    let tracks = gs.parts@;
    let c = track_count(tracks[0]);
    lemma_uniform_counts(tracks, c, tracks.len() as int);
    assert forall|i: int| 0 <= i < combined(gs).0.len() implies (#[trigger] combined(gs).0[i]).parts.len()
        == gs.parts@.len() && part_rows_upto(gs.parts@, i, gs.parts@.len() as int).1.len() == 0 by {
        assert forall|t: int| 0 <= t < tracks.len() implies has_measure(track_part(#[trigger] tracks[t]), i) by {
            assert(track_count(tracks[t]) == c);
        }
        lemma_part_rows_account(tracks, i, tracks.len() as int);
    }
}

/// How many of the first `n` parts have a measure `idx`.
pub open spec fn parts_having(tracks: Seq<GroupedTrack>, idx: int, n: int) -> int
    decreases n,
{
    if n <= 0 {
        0
    } else {
        parts_having(tracks, idx, n - 1) + if has_measure(track_part(tracks[n - 1]), idx) {
            1int
        } else {
            0int
        }
    }
}

proof fn lemma_parts_having_grows(tracks: Seq<GroupedTrack>, idx: int, a: int, b: int)
    requires
        0 <= a <= b,
    ensures
        parts_having(tracks, idx, a) <= parts_having(tracks, idx, b),
    decreases b - a,
{
    if a < b {
        lemma_parts_having_grows(tracks, idx, a, b - 1);
    }
}

proof fn lemma_part_rows_positions(tracks: Seq<GroupedTrack>, idx: int, n: int)
    requires
        0 <= n <= tracks.len(),
    ensures
        part_rows_upto(tracks, idx, n).0.len() == parts_having(tracks, idx, n),
        forall|p: int|
            0 <= p < n && has_measure(track_part(tracks[p]), idx) ==> part_rows_upto(tracks, idx, n).0[#[trigger] parts_having(
                tracks,
                idx,
                p,
            )] == slice_of(track_part(tracks[p]), track_part(tracks[p]).measures@[idx]),
    decreases n,
{
    if n > 0 {
        lemma_part_rows_positions(tracks, idx, n - 1);
        let prev = part_rows_upto(tracks, idx, n - 1).0;
        let cur = part_rows_upto(tracks, idx, n).0;
        let last = track_part(tracks[n - 1]);
        assert forall|p: int| 0 <= p < n && has_measure(track_part(tracks[p]), idx) implies cur[#[trigger] parts_having(
            tracks,
            idx,
            p,
        )] == slice_of(track_part(tracks[p]), track_part(tracks[p]).measures@[idx]) by {
            let j = parts_having(tracks, idx, p);
            lemma_parts_having_grows(tracks, idx, 0, p);
            if p < n - 1 {
                lemma_parts_having_grows(tracks, idx, p + 1, n - 1);
                assert(parts_having(tracks, idx, p + 1) == j + 1);
                assert(j < prev.len());
                assert(prev[j] == slice_of(track_part(tracks[p]), track_part(tracks[p]).measures@[idx]));
                if has_measure(last, idx) {
                    assert(cur =~= prev.push(slice_of(last, last.measures@[idx])));
                    assert(cur[j] == prev[j]);
                } else {
                    assert(cur =~= prev);
                }
            } else {
                assert(p == n - 1);
                assert(has_measure(last, idx));
                assert(cur =~= prev.push(slice_of(last, last.measures@[idx])));
                assert(cur[j] == slice_of(track_part(tracks[p]), track_part(tracks[p]).measures@[idx]));
            }
        }
    }
}

/// Every part that has measure `idx` contributes, in part order, a slice
/// with its name, kind and events; a `notes+lyrics` or lyrics part's slice
/// carries exactly that measure's paired syllables, verse by verse, and any
/// other part's slice carries no lyrics.
pub proof fn lemma_combined_slices_keep_lyrics(gs: GroupedScore, idx: int, p: int)
    requires
        0 <= p < gs.parts@.len(),
        has_measure(track_part(gs.parts@[p]), idx),
        idx < combined(gs).0.len(),
    ensures
        ({
            let part = track_part(gs.parts@[p]);
            let measure = part.measures@[idx];
            let k = parts_having(gs.parts@, idx, p);
            let slices = combined(gs).0[idx].parts;
            &&& 0 <= k < slices.len()
            &&& slices[k].name == opt_str_view(part.name)
            &&& slices[k].kind == part.kind
            &&& slices[k].events == measure.notes.events@
            &&& (part.kind == PartKind::NotesWithLyrics || part.kind == PartKind::Lyrics) ==> {
                &&& slices[k].lyrics.len() == measure.paired_lyrics@.len()
                &&& forall|v: int|
                    0 <= v < slices[k].lyrics.len() ==> #[trigger] slices[k].lyrics[v] == syllables_view(
                        measure.paired_lyrics@[v]@,
                    )
            }
            &&& !(part.kind == PartKind::NotesWithLyrics || part.kind == PartKind::Lyrics)
                ==> slices[k].lyrics.len() == 0
        }),
{
    let tracks = gs.parts@;
    let n = tracks.len() as int;
    lemma_part_rows_positions(tracks, idx, n);
    lemma_parts_having_grows(tracks, idx, p + 1, n);
    assert(parts_having(tracks, idx, p + 1) == parts_having(tracks, idx, p) + 1);
    lemma_parts_having_grows(tracks, idx, 0, p);
    assert(combined(gs).0[idx] == combined_measure(gs, idx, fallback_directives()));
    let part = track_part(tracks[p]);
    let measure = part.measures@[idx];
    let k = parts_having(tracks, idx, p);
    assert(combined_measure(gs, idx, fallback_directives()).parts == part_rows_upto(tracks, idx, n).0);
    assert(part_rows_upto(tracks, idx, n).0[k] == slice_of(part, measure));
}

} // verus!
