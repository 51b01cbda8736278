//! Properties the library keeps on every input, checked on concrete
//! scores: measures accounted for, bar lines closing rows, settled
//! consolidation, visible parts, combination bookkeeping, checking.

use jianpu::ast::grouped::{
    GroupedChordNote, GroupedNote, GroupedRest, Lyrics, Metadata, MultiPartMeasure, NoteEvent,
    Notes, PartRow, PartSlice, Score, TextStyle, TimeSignature,
};
use jianpu::ast::parsed::{
    Accidental, JianPuPitch, KeyChange, Note, NoteName, Offset, PartKind, Soundfont, Syllable,
    TriadQuality, TupletInfo,
};
use jianpu::ast::grouped::{GroupedMeasure, GroupedPart, GroupedScore, GroupedTrack, MeasureDirectives};
use jianpu::ast::parsed::{BassDegree, Extension};
use jianpu::check::check;
use jianpu::combiner::combine;
use jianpu::compiler::{compile, Decoration, ElementContent, MeasureRow};
use jianpu::consolidator::consolidate;
use jianpu::error::RecoverableError;
use jianpu::error::{Diagnostic, Span, Warning};

fn style() -> TextStyle {
    TextStyle { font_size: 12, horizontal_padding_pt: 4, vertical_padding_pt: 0 }
}

fn metadata() -> Metadata {
    Metadata {
        title: Some("t".to_string()),
        subtitle: None,
        author: Some("a".to_string()),
        row_height: 24,
        max_measures_per_system: 4,
        note_number_width: 8,
        parts_list_columns: 4,
        part_label_width_pt: 40,
        title_style: style(),
        subtitle_style: style(),
        author_style: style(),
        sequence: style(),
        part_legend: style(),
        measure_number: style(),
        section_label: style(),
        part_label: style(),
        page_number: style(),
        lyrics: style(),
        notes: style(),
        chords: style(),
        note_dash: style(),
        merge_duplicate_measures_across_parts: true,
        hide_resting_parts: true,
        hide_system_dividers: false,
        directive_row_offset: Offset { x: 0, y: 0 },
    }
}

fn pitch(d: u8) -> JianPuPitch {
    match d {
        1 => JianPuPitch::One,
        2 => JianPuPitch::Two,
        3 => JianPuPitch::Three,
        4 => JianPuPitch::Four,
        5 => JianPuPitch::Five,
        6 => JianPuPitch::Six,
        _ => JianPuPitch::Seven,
    }
}

fn grouped_note(d: u8, duration: u32) -> GroupedNote {
    GroupedNote {
        pitch: pitch(d),
        accidental: Accidental::Natural,
        octave: 0,
        duration,
        slur: false,
        tie_to_next_span: None,
        event_span: Span::new(0, 0),
        group_membership: 0,
        group_continuation: 0,
        dotted: false,
        double_dotted: false,
        slur_group_close_at_duration: None,
        tuplet: None,
    }
}

fn n(d: u8, duration: u32) -> NoteEvent {
    NoteEvent::Note(grouped_note(d, duration))
}

/// A note inside `membership` nested slur groups, `continuation` of which go
/// on past it.
fn slurred(d: u8, duration: u32, membership: u8, continuation: u8) -> NoteEvent {
    NoteEvent::Note(GroupedNote {
        group_membership: membership,
        group_continuation: continuation,
        ..grouped_note(d, duration)
    })
}

fn tied(d: u8, duration: u32) -> NoteEvent {
    NoteEvent::Note(GroupedNote { tie_to_next_span: Some(Span::new(0, 1)), ..grouped_note(d, duration) })
}

fn grouped_rest(duration: u32, implicit_fill: bool) -> GroupedRest {
    GroupedRest {
        duration,
        dotted: false,
        double_dotted: false,
        group_membership: 0,
        group_continuation: 0,
        tuplet: None,
        implicit_fill,
    }
}

fn r(duration: u32) -> NoteEvent {
    NoteEvent::Rest(grouped_rest(duration, false))
}

fn fill(duration: u32) -> NoteEvent {
    NoteEvent::Rest(grouped_rest(duration, true))
}

fn chord(d: u8, duration: u32, dotted: bool) -> NoteEvent {
    NoteEvent::Chord(GroupedChordNote {
        degree: pitch(d),
        accidental: Accidental::Natural,
        triad: TriadQuality::Major,
        extension: None,
        bass: None,
        duration,
        slur: false,
        tie_to_next_span: None,
        event_span: Span::new(0, 0),
        group_membership: 0,
        group_continuation: 0,
        dotted,
        double_dotted: false,
        slur_group_close_at_duration: None,
        tuplet: None,
    })
}

fn slice(name: &str, kind: PartKind, events: Vec<NoteEvent>) -> PartSlice {
    PartSlice {
        name: Some(name.to_string()),
        kind,
        soundfont: Soundfont::default(),
        volume: 100,
        octave_offset: 0,
        notes: Notes { events },
        lyrics: Vec::new(),
        has_error: false,
        resolution_multiplier: 1,
        beat_group_size: 4,
    }
}

fn notes(name: &str, events: Vec<NoteEvent>) -> PartSlice {
    slice(name, PartKind::Notes, events)
}

fn with_lyrics(mut s: PartSlice, verses: &[&[&str]]) -> PartSlice {
    s.lyrics = verses
        .iter()
        .map(|v| Lyrics {
            syllables: v.iter().map(|t| Syllable { text: t.to_string(), held: false }).collect(),
        })
        .collect();
    s
}

fn measure(parts: Vec<PartSlice>) -> MultiPartMeasure {
    MultiPartMeasure {
        time_signature: None,
        bpm: None,
        key: None,
        label: None,
        merge_duplicate_measures_across_parts: true,
        hide_resting_parts: true,
        system_break: false,
        parts: parts.into_iter().map(PartRow::Timed).collect(),
        source_span: Span::new(0, 0),
        diagnostics: Vec::new(),
    }
}

/// A measure opening with `time=<num>/<den> key=C4 bpm=<bpm>`.
fn opening(parts: Vec<PartSlice>, num: u8, den: u8, bpm: u32) -> MultiPartMeasure {
    MultiPartMeasure {
        time_signature: Some(TimeSignature { numerator: num, denominator: den }),
        bpm: Some(bpm),
        key: Some(KeyChange { note: Note { name: NoteName::C, octave: 4, accidental: Accidental::Natural } }),
        ..measure(parts)
    }
}

fn first(parts: Vec<PartSlice>) -> MultiPartMeasure {
    opening(parts, 4, 4, 120)
}

fn score(measures: Vec<MultiPartMeasure>) -> Score {
    Score { metadata: metadata(), measures, document_diagnostics: Vec::new(), sequence: None }
}

fn count<F: Fn(&ElementContent) -> bool>(row: &MeasureRow, f: F) -> usize {
    row.elements.iter().filter(|e| f(&e.content)).count()
}


fn rests4() -> PartSlice {
    notes("S", vec![r(4), r(4), r(4), r(4)])
}

#[test]
fn collapsed_blocks_stand_for_every_measure() {
    let score = score(vec![
        first(vec![rests4()]),
        measure(vec![rests4()]),
        measure(vec![notes("S", vec![n(1, 16)])]),
        measure(vec![rests4()]),
        measure(vec![rests4()]),
        measure(vec![rests4()]),
        measure(vec![notes("S", vec![n(2, 16)])]),
    ]);
    let result = compile(&score);
    let represented: usize = result.blocks.iter().map(|b| b.represents_measures).sum();
    assert_eq!(represented, 7);
    assert_eq!(result.blocks.len(), 4);
    let counts: Vec<usize> = result.blocks.iter().map(|b| b.represents_measures).collect();
    assert_eq!(counts, vec![2, 1, 3, 1]);
}

#[test]
fn every_row_closes_with_a_bar_line_at_the_summed_duration() {
    let events = vec![n(1, 2), r(2), n(3, 8), NoteEvent::Rest(GroupedRest { dotted: true, ..grouped_rest(6, false) })];
    let result = compile(&score(vec![first(vec![notes("S", events)])]));
    let row = &result.blocks[0].rows[0];
    let last = row.elements.last().unwrap();
    assert_eq!(last.content, ElementContent::BarLine);
    assert_eq!(last.column, 18);
    assert_eq!(count(row, |c| matches!(c, ElementContent::BarLine)), 1);
}

#[test]
fn merged_rest_run_keeps_first_note_id_and_spans_the_run() {
    let score = score(vec![
        MultiPartMeasure { source_span: Span::new(10, 20), ..first(vec![notes("S", vec![n(1, 16)])]) },
        MultiPartMeasure { source_span: Span::new(21, 30), ..measure(vec![rests4()]) },
        MultiPartMeasure { source_span: Span::new(31, 40), ..measure(vec![rests4()]) },
    ]);
    let result = compile(&score);
    assert_eq!(result.blocks.len(), 2);
    let merged = &result.blocks[1];
    assert_eq!(merged.source_span, Span::new(21, 40));
    let row = &merged.rows[0];
    assert_eq!(row.elements.len(), 2);
    // Measure 1 used note id 0; the run's first rest is note id 1.
    assert_eq!(row.elements[0].content, ElementContent::MultiMeasureRest { count: 2 });
    assert_eq!(row.elements[0].note_id, Some(1));
    assert_eq!(row.elements[1].content, ElementContent::BarLine);
    assert_eq!(row.elements[1].column, 8);
}

#[test]
fn tie_span_is_remapped_to_the_block_after_a_collapsed_run() {
    let score = score(vec![
        first(vec![rests4()]),
        measure(vec![rests4()]),
        measure(vec![notes("S", vec![tied(1, 8), n(1, 8)])]),
    ]);
    let result = compile(&score);
    assert_eq!(result.blocks.len(), 2);
    assert_eq!(result.slur_spans.len(), 1);
    let span = result.slur_spans[0];
    assert_eq!((span.from_measure, span.from_column, span.to_measure, span.to_column), (1, 0, 1, 8));
}

#[test]
fn tie_continuation_shares_the_tied_note_id() {
    let score = score(vec![first(vec![notes("S", vec![tied(1, 8), n(1, 8)])]), measure(vec![notes("S", vec![n(2, 16)])])]);
    let result = compile(&score);
    let heads: Vec<Option<usize>> = result.blocks[0].rows[0]
        .elements
        .iter()
        .filter(|e| matches!(e.content, ElementContent::NoteHead { .. }))
        .map(|e| e.note_id)
        .collect();
    assert_eq!(heads, vec![Some(0), Some(0)]);
    let second = result.blocks[1].rows[0].elements.iter().find(|e| matches!(e.content, ElementContent::NoteHead { .. })).unwrap();
    assert_eq!(second.note_id, Some(2));
}

#[test]
fn tuplet_span_covers_the_tagged_run_with_its_digit() {
    let triplet = |d: u8| NoteEvent::Note(GroupedNote { tuplet: Some(TupletInfo { num: 3, den: 2 }), ..grouped_note(d, 4) });
    let mut s = notes("S", vec![triplet(1), triplet(2), triplet(3), n(4, 6), n(5, 6), n(6, 12)]);
    s.resolution_multiplier = 3;
    let result = compile(&score(vec![first(vec![s])]));
    assert_eq!(result.tuplet_spans.len(), 1);
    let t = &result.tuplet_spans[0];
    assert_eq!((t.from_column, t.to_column, t.label.as_str()), (0, 8, "3"));
}

#[test]
fn key_and_chord_text_are_formatted() {
    let key = KeyChange { note: Note { name: NoteName::F, octave: 4, accidental: Accidental::Sharp } };
    let c = NoteEvent::Chord(GroupedChordNote {
        degree: JianPuPitch::Six,
        accidental: Accidental::Natural,
        triad: TriadQuality::Minor,
        extension: Some(Extension::DominantSeventh),
        bass: Some(BassDegree { degree: JianPuPitch::Three, accidental: Accidental::Flat }),
        duration: 16,
        slur: false,
        tie_to_next_span: None,
        event_span: Span::new(0, 0),
        group_membership: 0,
        group_continuation: 0,
        dotted: false,
        double_dotted: false,
        slur_group_close_at_duration: None,
        tuplet: None,
    });
    let m = MultiPartMeasure { key: Some(key), ..first(vec![slice("C", PartKind::Chords, vec![c])]) };
    let result = compile(&score(vec![m]));
    let Decoration::DirectiveLine { key, .. } = &result.blocks[0].decorations[0];
    assert_eq!(key.as_deref(), Some("1=F\u{266f}"));
    let text = result.blocks[0].rows[0]
        .elements
        .iter()
        .find_map(|e| match &e.content {
            ElementContent::ChordSymbol { text, .. } => Some(text.clone()),
            _ => None,
        })
        .unwrap();
    assert_eq!(text, "6m\u{2077}/3\u{266d}");
}

#[test]
fn unnamed_part_gets_an_anonymous_row_id() {
    let mut s = notes("S", vec![n(1, 16)]);
    s.name = None;
    let result = compile(&score(vec![first(vec![notes("A", vec![n(2, 16)]), s])]));
    let row = &result.blocks[0].rows[1];
    assert_eq!(row.id.0, "__anon_1");
    assert_eq!(row.label, "");
}

#[test]
fn hidden_resting_parts_leave_only_sounding_rows() {
    let with = compile(&score(vec![first(vec![rests4(), notes("B", vec![n(1, 16)]), rests4()])]));
    assert_eq!(with.blocks[0].rows.len(), 1);
    assert_eq!(with.blocks[0].rows[0].source_part_index, 1);
    let all_rest = compile(&score(vec![first(vec![rests4(), rests4()])]));
    assert_eq!(all_rest.blocks[0].rows.len(), 2, "with no sounding part nothing is hidden");
}

#[test]
fn consolidation_leaves_no_foldable_rows() {
    let q = || vec![n(1, 4), n(2, 4), n(3, 4), n(4, 4)];
    let m = measure(vec![notes("A", q()), notes("B", vec![n(5, 16)]), notes("C", q()), notes("D", q())]);
    let blocks = consolidate(compile(&score(vec![m]))).blocks;
    let rows = &blocks[0].rows;
    assert_eq!(rows.len(), 2);
    assert_eq!(rows[0].label, "A");
    assert_eq!(rows[0].absorbed_rows.len(), 2);
    assert_eq!(rows[1].label, "B");
    for i in 0..rows.len() {
        for j in i + 1..rows.len() {
            let same = rows[i].elements.len() == rows[j].elements.len()
                && rows[i].elements.iter().zip(rows[j].elements.iter()).all(|(a, b)| a.column == b.column && a.content == b.content);
            assert!(!same);
        }
    }
}

#[test]
fn lyric_rows_are_split_per_verse() {
    let a = with_lyrics(
        slice("S", PartKind::NotesWithLyrics, vec![n(1, 8), n(2, 8)]),
        &[&["a", "b"], &["c", "d"]],
    );
    let blocks = consolidate(compile(&score(vec![first(vec![a])]))).blocks;
    let ids: Vec<&str> = blocks[0].rows.iter().map(|r| r.id.0.as_str()).collect();
    assert_eq!(ids, vec!["S", "S-lyrics-0", "S-lyrics-1"]);
    assert!(blocks[0].rows[0].elements.iter().all(|e| !matches!(e.content, ElementContent::Lyric { .. })));
    let verse1: Vec<(u32, String)> = blocks[0].rows[2]
        .elements
        .iter()
        .filter_map(|e| match &e.content {
            ElementContent::Lyric { text, verse: 1 } => Some((e.column, text.clone())),
            _ => None,
        })
        .collect();
    assert_eq!(verse1, vec![(0, "c".to_string()), (8, "d".to_string())]);
    assert_eq!(blocks[0].rows[2].elements.last().unwrap().content, ElementContent::BarLine);
}

fn grouped_measure(start: usize, end: usize) -> GroupedMeasure {
    GroupedMeasure {
        notes: Notes { events: vec![n(1, 16)] },
        source_span: Span::new(start, end),
        paired_lyrics: Vec::new(),
        lyrics_error: Vec::new(),
        beat_overflow_error: None,
        dotted_eighth_errors: Vec::new(),
        chord_errors: Vec::new(),
        lex_error: None,
        lyrics_parse_error: None,
        extension_no_preceding_event_error: None,
        resolution_multiplier: 1,
        beat_group_size: 4,
    }
}

fn track(name: &str, measures: Vec<GroupedMeasure>) -> GroupedTrack {
    GroupedTrack::Timed(GroupedPart {
        name: Some(name.to_string()),
        kind: PartKind::Notes,
        soundfont: Soundfont::default(),
        volume: 100,
        octave_offset: 0,
        measures,
    })
}

fn plain_directives() -> MeasureDirectives {
    MeasureDirectives {
        time_signature: None,
        bpm: None,
        key: None,
        label: None,
        merge_duplicate_measures_across_parts: true,
        hide_resting_parts: true,
        system_break: false,
    }
}

#[test]
fn uniform_parts_combine_cleanly() {
    let gs = GroupedScore {
        measure_directives: vec![plain_directives(), plain_directives()],
        parts: vec![
            track("A", vec![grouped_measure(0, 5), grouped_measure(10, 15)]),
            track("B", vec![grouped_measure(6, 9), grouped_measure(16, 20)]),
        ],
        per_measure_parse_errors: vec![None, None],
    };
    let (measures, diagnostics) = combine(&gs);
    assert!(diagnostics.is_empty());
    assert_eq!(measures.len(), 2);
    assert!(measures.iter().all(|m| m.parts.len() == 2 && m.diagnostics.is_empty()));
    assert_eq!(measures[0].source_span, Span::new(0, 9));
    assert_eq!(measures[1].source_span, Span::new(10, 20));
}

#[test]
fn short_part_is_reported_and_accounted_for() {
    let gs = GroupedScore {
        measure_directives: vec![plain_directives()],
        parts: vec![
            track("A", vec![grouped_measure(0, 5), grouped_measure(10, 15)]),
            track("B", vec![grouped_measure(6, 9)]),
        ],
        per_measure_parse_errors: vec![Some(RecoverableError::general(Span::new(3, 4), "bad token".to_string()))],
    };
    let (measures, diagnostics) = combine(&gs);
    assert_eq!(measures.len(), 2);
    assert_eq!(diagnostics.len(), 1);
    assert_eq!(diagnostics[0].message(), "part Some(\"B\") has 1 measures, expected 2");
    let first_messages: Vec<&str> = measures[0].diagnostics.iter().map(|d| d.message()).collect();
    assert_eq!(first_messages, vec!["bad token"]);
    let second = &measures[1];
    assert_eq!(second.parts.len(), 1);
    let messages: Vec<&str> = second.diagnostics.iter().map(|d| d.message()).collect();
    assert_eq!(messages, vec!["measure has no directives", "timed part has no measure here"]);
    assert!(second.diagnostics.iter().all(|d| d.is_error()));
}

#[test]
fn measure_no_part_has_gets_a_span_error() {
    let gs = GroupedScore {
        measure_directives: vec![plain_directives()],
        parts: vec![track("A", vec![]), track("B", vec![grouped_measure(0, 3)])],
        per_measure_parse_errors: vec![],
    };
    let (measures, diagnostics) = combine(&gs);
    assert_eq!(measures.len(), 1);
    assert_eq!(diagnostics[0].message(), "part Some(\"B\") has 1 measures, expected 0");
    assert_eq!(measures[0].source_span, Span::new(0, 3));
    let empty = GroupedScore { measure_directives: vec![], parts: vec![], per_measure_parse_errors: vec![] };
    let (none, no_diagnostics) = combine(&empty);
    assert!(none.is_empty() && no_diagnostics.is_empty());
}

#[test]
fn check_reports_ok_only_without_errors() {
    let warning = Diagnostic::Warning(Warning { span: Span::new(0, 1), message: "heads up".to_string() });
    let m = MultiPartMeasure { diagnostics: vec![warning], ..first(vec![notes("S", vec![n(1, 16)])]) };
    let mut s = score(vec![m]);
    let outcome = check(&s);
    assert!(outcome.ok);
    assert_eq!(outcome.diagnostics.len(), 1);
    s.document_diagnostics.push(Diagnostic::Error(RecoverableError::general(Span::new(0, 1), "broken".to_string())));
    let outcome = check(&s);
    assert!(!outcome.ok);
    let messages: Vec<&str> = outcome.diagnostics.iter().map(|d| d.message()).collect();
    assert_eq!(messages, vec!["broken", "heads up"]);
}

#[test]
fn blocks_compare_by_rows_and_decorations() {
    let build = |d: u8| score(vec![first(vec![notes("S", vec![n(d, 8), n(2, 8)])])]);
    let a = compile(&build(1)).blocks;
    let b = compile(&build(1)).blocks;
    let c = compile(&build(3)).blocks;
    assert!(a[0] == b[0]);
    assert!(a[0] != c[0]);
}

#[test]
fn mismatched_part_name_is_printed_escaped() {
    let gs = GroupedScore {
        measure_directives: vec![plain_directives(), plain_directives()],
        parts: vec![
            track("A", vec![grouped_measure(0, 5), grouped_measure(10, 15)]),
            track("S\"1\\", vec![grouped_measure(6, 9)]),
        ],
        per_measure_parse_errors: vec![],
    };
    let (_, diagnostics) = combine(&gs);
    assert_eq!(diagnostics[0].message(), "part Some(\"S\\\"1\\\\\") has 1 measures, expected 2");
}

#[test]
fn consolidation_keeps_every_row() {
    let q = || vec![n(1, 4), n(2, 4), n(3, 4), n(4, 4)];
    let m = measure(vec![notes("A", q()), notes("B", vec![n(5, 16)]), notes("C", q()), notes("D", q())]);
    let compiled = compile(&score(vec![m]));
    let before = compiled.blocks[0].rows.len();
    let blocks = consolidate(compiled).blocks;
    let kept: usize = blocks[0].rows.iter().map(|r| 1 + r.absorbed_rows.len()).sum();
    assert_eq!(before, 4);
    assert_eq!(kept, 4);
}

#[test]
fn rows_of_different_parts_stay_apart_when_cross_part_merging_is_off() {
    let q = || vec![n(1, 4), n(2, 4), n(3, 4), n(4, 4)];
    let mut m = measure(vec![notes("A", q()), notes("B", vec![n(5, 16)]), notes("C", q())]);
    m.merge_duplicate_measures_across_parts = false;
    let blocks = consolidate(compile(&score(vec![m]))).blocks;
    let labels: Vec<&str> = blocks[0].rows.iter().map(|r| r.label.as_str()).collect();
    assert_eq!(labels, vec!["A", "B", "C"]);
    assert!(blocks[0].rows.iter().all(|r| r.absorbed_rows.is_empty()));
}

#[test]
fn held_note_gets_one_dash_per_later_beat() {
    let result = compile(&score(vec![first(vec![notes("S", vec![n(3, 12), n(4, 4)])])]));
    let row = &result.blocks[0].rows[0];
    let dashes: Vec<(u32, Option<usize>)> = row
        .elements
        .iter()
        .filter(|e| matches!(e.content, ElementContent::NoteDash { .. }))
        .map(|e| (e.column, e.note_id))
        .collect();
    assert_eq!(dashes, vec![(4, Some(0)), (8, Some(0))]);
    assert_eq!(row.elements[0].column, 0);
    assert_eq!(row.elements[0].note_id, Some(0));
}

#[test]
fn span_measures_refer_to_existing_blocks() {
    let score = score(vec![
        first(vec![notes("S", vec![tied(1, 16)])]),
        measure(vec![notes("S", vec![n(1, 16)])]),
        measure(vec![rests4()]),
        measure(vec![rests4()]),
        measure(vec![notes("S", vec![tied(2, 8), n(2, 8)])]),
    ]);
    let result = compile(&score);
    assert_eq!(result.blocks.len(), 4);
    assert_eq!(result.slur_spans.len(), 2);
    for s in &result.slur_spans {
        assert!(s.from_measure <= s.to_measure && s.to_measure < result.blocks.len());
    }
    assert_eq!((result.slur_spans[0].from_measure, result.slur_spans[0].to_measure), (0, 1));
    assert_eq!((result.slur_spans[1].from_measure, result.slur_spans[1].to_measure), (3, 3));
}
