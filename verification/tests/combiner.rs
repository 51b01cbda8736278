//! Combination of the grouper's per-part measures into multi-part measures.
//! Each grouped score is built directly.

use jianpu::ast::grouped::{
    GroupedMeasure, GroupedNote, GroupedPart, GroupedScore, GroupedTrack, MeasureDirectives, NoteEvent,
    Notes, TimeSignature,
};
use jianpu::ast::parsed::{Accidental, JianPuPitch, KeyChange, Note, NoteName, PartKind, Soundfont, Syllable};
use jianpu::combiner::combine;
use jianpu::error::{Span, Warning};

fn quarter(pitch: JianPuPitch) -> NoteEvent {
    NoteEvent::Note(GroupedNote {
        pitch,
        accidental: Accidental::Natural,
        octave: 0,
        duration: 4,
        slur: false,
        tie_to_next_span: None,
        event_span: Span::new(0, 0),
        group_membership: 0,
        group_continuation: 0,
        dotted: false,
        double_dotted: false,
        slur_group_close_at_duration: None,
        tuplet: None,
    })
}

fn grouped_measure(start: usize, end: usize) -> GroupedMeasure {
    GroupedMeasure {
        notes: Notes {
            events: vec![
                quarter(JianPuPitch::One),
                quarter(JianPuPitch::Two),
                quarter(JianPuPitch::Three),
                quarter(JianPuPitch::Four),
            ],
        },
        source_span: Span::new(start, end),
        paired_lyrics: Vec::new(),
        lyrics_error: Vec::new(),
        beat_overflow_error: None,
        dotted_eighth_errors: Vec::new(),
        chord_errors: Vec::new(),
        lex_error: None,
        lyrics_parse_error: None,
        extension_no_preceding_event_error: None,
        resolution_multiplier: 1,
        beat_group_size: 4,
    }
}

fn part(name: &str, kind: PartKind, measures: Vec<GroupedMeasure>) -> GroupedTrack {
    GroupedTrack::Timed(GroupedPart {
        name: Some(name.to_string()),
        kind,
        soundfont: Soundfont::default(),
        volume: 100,
        octave_offset: 0,
        measures,
    })
}

fn directives(opening: bool) -> MeasureDirectives {
    MeasureDirectives {
        time_signature: if opening { Some(TimeSignature { numerator: 4, denominator: 4 }) } else { None },
        bpm: if opening { Some(120) } else { None },
        key: if opening {
            Some(KeyChange { note: Note { name: NoteName::C, octave: 4, accidental: Accidental::Natural } })
        } else {
            None
        },
        label: None,
        merge_duplicate_measures_across_parts: true,
        hide_resting_parts: true,
        system_break: false,
    }
}

/// `time=4/4 key=C4 bpm=120` then a Soprano and an Alto line.
fn two_part_score(alto: GroupedMeasure) -> GroupedScore {
    GroupedScore {
        measure_directives: vec![directives(true)],
        parts: vec![
            part("Soprano", PartKind::Notes, vec![grouped_measure(90, 97)]),
            part("Alto", PartKind::Notes, vec![alto]),
        ],
        per_measure_parse_errors: vec![None],
    }
}

#[test]
fn combines_two_parts_into_measures() {
    let (measures, _) = combine(&two_part_score(grouped_measure(98, 105)));
    assert_eq!(measures.len(), 1);
    assert_eq!(measures[0].parts.len(), 2);
}

#[test]
fn directives_come_from_first_part() {
    let (measures, _) = combine(&two_part_score(grouped_measure(98, 105)));
    assert_eq!(measures[0].bpm, Some(120));
    assert!(measures[0].time_signature.is_some());
}

#[test]
fn beat_overflow_in_one_part_attaches_error_to_measure() {
    // Alto has 5 notes in a 4/4 bar: the fifth is trimmed with a warning.
    let mut alto = grouped_measure(98, 107);
    alto.beat_overflow_error =
        Some(Warning { span: Span::new(106, 107), message: "beat overflow: 5 beats in a 4-beat measure".to_string() });
    let (measures, _) = combine(&two_part_score(alto));
    assert_eq!(measures.len(), 1);
    assert_eq!(measures[0].diagnostics.len(), 1);
    assert!(
        measures[0].diagnostics[0].message().contains("beat overflow"),
        "got: {}",
        measures[0].diagnostics[0].message()
    );
}

#[test]
fn missing_lyrics_line_in_first_measure_is_silently_filled() {
    // A notes+lyrics part whose first measure has no lyrics line.
    let mut second = grouped_measure(60, 67);
    second.paired_lyrics = vec![["la", "lo", "le", "li"]
        .iter()
        .map(|t| Syllable { text: t.to_string(), held: false })
        .collect()];
    let score = GroupedScore {
        measure_directives: vec![directives(false), directives(false)],
        parts: vec![part("A", PartKind::NotesWithLyrics, vec![grouped_measure(50, 57), second])],
        per_measure_parse_errors: vec![None, None],
    };
    let (measures, _) = combine(&score);
    assert_eq!(measures.len(), 2);
    assert!(
        measures[0].diagnostics.is_empty(),
        "measure 1 should have no diagnostics when lyrics are silently omitted"
    );
    assert!(measures[1].diagnostics.is_empty(), "measure 2 should have no errors");
}

#[test]
fn measure_source_span_is_nonzero_after_combine() {
    let (measures, _) = combine(&two_part_score(grouped_measure(98, 105)));
    assert_eq!(measures.len(), 1);
    assert!(measures[0].source_span.end > 0, "source_span.end should be > 0, got {:?}", measures[0].source_span);
}
