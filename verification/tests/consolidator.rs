//! Consolidation of compiled blocks: rows with identical content folded
//! together, mixed rows split. Each score is built directly in its grouped
//! form.

use jianpu::ast::grouped::{
    GroupedChordNote, GroupedNote, GroupedRest, Lyrics, Metadata, MultiPartMeasure, NoteEvent,
    Notes, PartRow, PartSlice, Score, TextStyle, TimeSignature,
};
use jianpu::ast::parsed::{
    Accidental, JianPuPitch, KeyChange, Note, NoteName, Offset, PartKind, Soundfont, Syllable,
    TriadQuality, TupletInfo,
};
use jianpu::compiler::{compile, ElementContent, MeasureBlock, MeasureRow};
use jianpu::consolidator::consolidate;
use jianpu::error::{Diagnostic, Span, Warning};

fn style() -> TextStyle {
    TextStyle { font_size: 12, horizontal_padding_pt: 4, vertical_padding_pt: 0 }
}

fn metadata() -> Metadata {
    Metadata {
        title: Some("t".to_string()),
        subtitle: None,
        author: Some("a".to_string()),
        row_height: 24,
        max_measures_per_system: 4,
        note_number_width: 8,
        parts_list_columns: 4,
        part_label_width_pt: 40,
        title_style: style(),
        subtitle_style: style(),
        author_style: style(),
        sequence: style(),
        part_legend: style(),
        measure_number: style(),
        section_label: style(),
        part_label: style(),
        page_number: style(),
        lyrics: style(),
        notes: style(),
        chords: style(),
        note_dash: style(),
        merge_duplicate_measures_across_parts: true,
        hide_resting_parts: true,
        hide_system_dividers: false,
        directive_row_offset: Offset { x: 0, y: 0 },
    }
}

fn pitch(d: u8) -> JianPuPitch {
    match d {
        1 => JianPuPitch::One,
        2 => JianPuPitch::Two,
        3 => JianPuPitch::Three,
        4 => JianPuPitch::Four,
        5 => JianPuPitch::Five,
        6 => JianPuPitch::Six,
        _ => JianPuPitch::Seven,
    }
}

fn grouped_note(d: u8, duration: u32) -> GroupedNote {
    GroupedNote {
        pitch: pitch(d),
        accidental: Accidental::Natural,
        octave: 0,
        duration,
        slur: false,
        tie_to_next_span: None,
        event_span: Span::new(0, 0),
        group_membership: 0,
        group_continuation: 0,
        dotted: false,
        double_dotted: false,
        slur_group_close_at_duration: None,
        tuplet: None,
    }
}

fn n(d: u8, duration: u32) -> NoteEvent {
    NoteEvent::Note(grouped_note(d, duration))
}

/// A note inside `membership` nested slur groups, `continuation` of which go
/// on past it.
fn slurred(d: u8, duration: u32, membership: u8, continuation: u8) -> NoteEvent {
    NoteEvent::Note(GroupedNote {
        group_membership: membership,
        group_continuation: continuation,
        ..grouped_note(d, duration)
    })
}

fn tied(d: u8, duration: u32) -> NoteEvent {
    NoteEvent::Note(GroupedNote { tie_to_next_span: Some(Span::new(0, 1)), ..grouped_note(d, duration) })
}

fn grouped_rest(duration: u32, implicit_fill: bool) -> GroupedRest {
    GroupedRest {
        duration,
        dotted: false,
        double_dotted: false,
        group_membership: 0,
        group_continuation: 0,
        tuplet: None,
        implicit_fill,
    }
}

fn r(duration: u32) -> NoteEvent {
    NoteEvent::Rest(grouped_rest(duration, false))
}

fn fill(duration: u32) -> NoteEvent {
    NoteEvent::Rest(grouped_rest(duration, true))
}

fn chord(d: u8, duration: u32, dotted: bool) -> NoteEvent {
    NoteEvent::Chord(GroupedChordNote {
        degree: pitch(d),
        accidental: Accidental::Natural,
        triad: TriadQuality::Major,
        extension: None,
        bass: None,
        duration,
        slur: false,
        tie_to_next_span: None,
        event_span: Span::new(0, 0),
        group_membership: 0,
        group_continuation: 0,
        dotted,
        double_dotted: false,
        slur_group_close_at_duration: None,
        tuplet: None,
    })
}

fn slice(name: &str, kind: PartKind, events: Vec<NoteEvent>) -> PartSlice {
    PartSlice {
        name: Some(name.to_string()),
        kind,
        soundfont: Soundfont::default(),
        volume: 100,
        octave_offset: 0,
        notes: Notes { events },
        lyrics: Vec::new(),
        has_error: false,
        resolution_multiplier: 1,
        beat_group_size: 4,
    }
}

fn notes(name: &str, events: Vec<NoteEvent>) -> PartSlice {
    slice(name, PartKind::Notes, events)
}

fn with_lyrics(mut s: PartSlice, verses: &[&[&str]]) -> PartSlice {
    s.lyrics = verses
        .iter()
        .map(|v| Lyrics {
            syllables: v.iter().map(|t| Syllable { text: t.to_string(), held: false }).collect(),
        })
        .collect();
    s
}

fn measure(parts: Vec<PartSlice>) -> MultiPartMeasure {
    MultiPartMeasure {
        time_signature: None,
        bpm: None,
        key: None,
        label: None,
        merge_duplicate_measures_across_parts: true,
        hide_resting_parts: true,
        system_break: false,
        parts: parts.into_iter().map(PartRow::Timed).collect(),
        source_span: Span::new(0, 0),
        diagnostics: Vec::new(),
    }
}

/// A measure opening with `time=<num>/<den> key=C4 bpm=<bpm>`.
fn opening(parts: Vec<PartSlice>, num: u8, den: u8, bpm: u32) -> MultiPartMeasure {
    MultiPartMeasure {
        time_signature: Some(TimeSignature { numerator: num, denominator: den }),
        bpm: Some(bpm),
        key: Some(KeyChange { note: Note { name: NoteName::C, octave: 4, accidental: Accidental::Natural } }),
        ..measure(parts)
    }
}

fn first(parts: Vec<PartSlice>) -> MultiPartMeasure {
    opening(parts, 4, 4, 120)
}

fn score(measures: Vec<MultiPartMeasure>) -> Score {
    Score { metadata: metadata(), measures, document_diagnostics: Vec::new(), sequence: None }
}

fn count<F: Fn(&ElementContent) -> bool>(row: &MeasureRow, f: F) -> usize {
    row.elements.iter().filter(|e| f(&e.content)).count()
}

fn consolidated_blocks(score: Score) -> Vec<MeasureBlock> {
    consolidate(compile(&score)).blocks
}

fn labels(block: &MeasureBlock) -> Vec<&String> {
    block.rows.iter().map(|row| &row.label).collect()
}

fn la(name: &str, events: Vec<NoteEvent>) -> PartSlice {
    with_lyrics(slice(name, PartKind::NotesWithLyrics, events), &[&["la", "la", "la", "la"]])
}

fn quarters(a: u8, b: u8, c: u8, d: u8) -> Vec<NoteEvent> {
    vec![n(a, 4), n(b, 4), n(c, 4), n(d, 4)]
}

#[test]
fn follow_part_identical_to_source_is_omitted_per_measure() {
    // B follows A. Measure 1: B gets A's notes and lyrics. Measure 2: B has
    // its own notes (3 4 5 6) and A's lyrics.
    let m1 = measure(vec![la("A", quarters(1, 2, 3, 4)), la("B", quarters(1, 2, 3, 4))]);
    let m2 = measure(vec![la("A", quarters(1, 2, 3, 4)), la("B", quarters(3, 4, 5, 6))]);
    let blocks = consolidated_blocks(score(vec![m1, m2]));
    assert_eq!(
        blocks[0].rows.len(),
        2,
        "measure 1: B (fully identical follow) should be omitted; got rows: {:?}",
        labels(&blocks[0])
    );
    assert_eq!(blocks[0].rows[0].label, "A", "measure 1: notes row survives as A, with B recorded as absorbed");
    assert_eq!(
        blocks[0].rows[0].absorbed_rows.len(),
        1,
        "measure 1: B's notes should be recorded as absorbed into A's row"
    );
    assert_eq!(blocks[0].rows[1].label, "A", "measure 1: lyrics row survives as A, with B recorded as absorbed");
    assert_eq!(blocks[1].rows.len(), 3, "measure 2: A notes, A lyrics, and B notes should appear");
    assert_eq!(blocks[1].rows[0].label, "A", "measure 2: first row should be A notes");
    assert_eq!(blocks[1].rows[1].label, "A", "measure 2: lyrics row survives as A, with B recorded as absorbed");
    assert_eq!(blocks[1].rows[2].label, "B", "measure 2: third row should be B notes");
}

#[test]
fn no_orphan_lyric_row_when_notes_lyrics_part_and_follower_never_write_lyric_text() {
    // Neither A (notes+lyrics) nor its follower B ever writes a lyric line.
    let a = slice("A", PartKind::NotesWithLyrics, quarters(1, 2, 3, 4));
    let b = slice("B", PartKind::NotesWithLyrics, quarters(5, 6, 7, 1));
    let blocks = consolidated_blocks(score(vec![measure(vec![a, b])]));
    assert_eq!(
        blocks[0].rows.len(),
        2,
        "expected only A's and B's notes rows, no lyrics row; got rows: {:?}",
        labels(&blocks[0])
    );
}

#[test]
fn identical_rows_from_different_parts_merge_by_default() {
    let m = measure(vec![notes("A", quarters(1, 2, 3, 4)), notes("B", quarters(1, 2, 3, 4))]);
    let blocks = consolidated_blocks(score(vec![m]));
    assert_eq!(blocks[0].rows.len(), 1);
    assert_eq!(blocks[0].rows[0].label, "A");
    assert_eq!(blocks[0].rows[0].absorbed_rows.len(), 1);
}

#[test]
fn identical_rows_from_different_parts_stay_separate_when_disabled() {
    let m = MultiPartMeasure {
        merge_duplicate_measures_across_parts: false,
        ..measure(vec![notes("A", quarters(1, 2, 3, 4)), notes("B", quarters(1, 2, 3, 4))])
    };
    let blocks = consolidated_blocks(score(vec![m]));
    assert_eq!(blocks[0].rows.len(), 2);
    assert_eq!(blocks[0].rows[0].label, "A");
    assert_eq!(blocks[0].rows[1].label, "B");
}

#[test]
fn merge_duplicate_measures_across_parts_directive_toggles_mid_score() {
    let m1 = measure(vec![notes("A", quarters(1, 2, 3, 4)), notes("B", quarters(1, 2, 3, 4))]);
    let m2 = MultiPartMeasure {
        merge_duplicate_measures_across_parts: false,
        ..measure(vec![notes("A", quarters(5, 6, 7, 1)), notes("B", quarters(5, 6, 7, 1))])
    };
    let blocks = consolidated_blocks(score(vec![m1, m2]));
    assert_eq!(blocks[0].rows.len(), 1, "measure 1: identical rows merge by default");
    assert_eq!(blocks[1].rows.len(), 2, "measure 2: merging disabled from here, identical rows stay separate");
}

#[test]
fn identical_measure_merges_across_parts_even_after_note_id_drift() {
    // Measure 1: A2 `0000_.(7=~` and S `0 - 7~ -` have different rhythms, so
    // their note id counters diverge. Measure 2: `7_) 1'_~1' --` and
    // `7_ 1'_~1' --` render the same notes and dashes.
    let sixteenth = NoteEvent::Note(GroupedNote {
        group_membership: 1,
        group_continuation: 1,
        tie_to_next_span: Some(Span::new(0, 1)),
        ..grouped_note(7, 1)
    });
    let dotted_rest = NoteEvent::Rest(GroupedRest { dotted: true, ..grouped_rest(3, false) });
    let a2_1 = notes("A2", vec![r(4), r(4), r(4), dotted_rest, sixteenth]);
    let s_1 = notes("S", vec![r(8), tied(7, 8)]);
    let high = |duration: u32, tie: bool| {
        NoteEvent::Note(GroupedNote {
            octave: 1,
            tie_to_next_span: if tie { Some(Span::new(0, 1)) } else { None },
            ..grouped_note(1, duration)
        })
    };
    let a2_2 = notes("A2", vec![slurred(7, 2, 1, 0), high(2, true), high(12, false)]);
    let s_2 = notes("S", vec![n(7, 2), high(2, true), high(12, false)]);
    let m1 = MultiPartMeasure { label: Some("CE3".to_string()), ..measure(vec![a2_1, s_1]) };
    let blocks = consolidated_blocks(score(vec![m1, measure(vec![a2_2, s_2])]));
    assert_eq!(
        blocks[1].rows.len(),
        1,
        "measure 2: A2 and S have identical pitches/rhythm and should merge into one row; got rows: {:?}",
        labels(&blocks[1])
    );
}
