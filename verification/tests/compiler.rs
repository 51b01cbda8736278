//! Compilation of grouped scores into measure blocks. Each score is built
//! directly in its grouped form: the measures, parts and events a score's
//! text groups into.

use jianpu::ast::grouped::{
    GroupedChordNote, GroupedNote, GroupedRest, Lyrics, Metadata, MultiPartMeasure, NoteEvent,
    Notes, PartRow, PartSlice, Score, TextStyle, TimeSignature,
};
use jianpu::ast::parsed::{
    Accidental, JianPuPitch, KeyChange, Note, NoteName, Offset, PartKind, Soundfont, Syllable,
    TriadQuality, TupletInfo,
};
use jianpu::compiler::{compile, Decoration, ElementContent, MeasureRow};
use jianpu::error::{Diagnostic, Span, Warning};

fn style() -> TextStyle {
    TextStyle { font_size: 12, horizontal_padding_pt: 4, vertical_padding_pt: 0 }
}

fn metadata() -> Metadata {
    Metadata {
        title: Some("t".to_string()),
        subtitle: None,
        author: Some("a".to_string()),
        row_height: 24,
        max_measures_per_system: 4,
        note_number_width: 8,
        parts_list_columns: 4,
        part_label_width_pt: 40,
        title_style: style(),
        subtitle_style: style(),
        author_style: style(),
        sequence: style(),
        part_legend: style(),
        measure_number: style(),
        section_label: style(),
        part_label: style(),
        page_number: style(),
        lyrics: style(),
        notes: style(),
        chords: style(),
        note_dash: style(),
        merge_duplicate_measures_across_parts: true,
        hide_resting_parts: true,
        hide_system_dividers: false,
        directive_row_offset: Offset { x: 0, y: 0 },
    }
}

fn pitch(d: u8) -> JianPuPitch {
    match d {
        1 => JianPuPitch::One,
        2 => JianPuPitch::Two,
        3 => JianPuPitch::Three,
        4 => JianPuPitch::Four,
        5 => JianPuPitch::Five,
        6 => JianPuPitch::Six,
        _ => JianPuPitch::Seven,
    }
}

fn grouped_note(d: u8, duration: u32) -> GroupedNote {
    GroupedNote {
        pitch: pitch(d),
        accidental: Accidental::Natural,
        octave: 0,
        duration,
        slur: false,
        tie_to_next_span: None,
        event_span: Span::new(0, 0),
        group_membership: 0,
        group_continuation: 0,
        dotted: false,
        double_dotted: false,
        slur_group_close_at_duration: None,
        tuplet: None,
    }
}

fn n(d: u8, duration: u32) -> NoteEvent {
    NoteEvent::Note(grouped_note(d, duration))
}

/// A note inside `membership` nested slur groups, `continuation` of which go
/// on past it.
fn slurred(d: u8, duration: u32, membership: u8, continuation: u8) -> NoteEvent {
    NoteEvent::Note(GroupedNote {
        group_membership: membership,
        group_continuation: continuation,
        ..grouped_note(d, duration)
    })
}

fn tied(d: u8, duration: u32) -> NoteEvent {
    NoteEvent::Note(GroupedNote { tie_to_next_span: Some(Span::new(0, 1)), ..grouped_note(d, duration) })
}

fn grouped_rest(duration: u32, implicit_fill: bool) -> GroupedRest {
    GroupedRest {
        duration,
        dotted: false,
        double_dotted: false,
        group_membership: 0,
        group_continuation: 0,
        tuplet: None,
        implicit_fill,
    }
}

fn r(duration: u32) -> NoteEvent {
    NoteEvent::Rest(grouped_rest(duration, false))
}

fn fill(duration: u32) -> NoteEvent {
    NoteEvent::Rest(grouped_rest(duration, true))
}

fn chord(d: u8, duration: u32, dotted: bool) -> NoteEvent {
    NoteEvent::Chord(GroupedChordNote {
        degree: pitch(d),
        accidental: Accidental::Natural,
        triad: TriadQuality::Major,
        extension: None,
        bass: None,
        duration,
        slur: false,
        tie_to_next_span: None,
        event_span: Span::new(0, 0),
        group_membership: 0,
        group_continuation: 0,
        dotted,
        double_dotted: false,
        slur_group_close_at_duration: None,
        tuplet: None,
    })
}

fn slice(name: &str, kind: PartKind, events: Vec<NoteEvent>) -> PartSlice {
    PartSlice {
        name: Some(name.to_string()),
        kind,
        soundfont: Soundfont::default(),
        volume: 100,
        octave_offset: 0,
        notes: Notes { events },
        lyrics: Vec::new(),
        has_error: false,
        resolution_multiplier: 1,
        beat_group_size: 4,
    }
}

fn notes(name: &str, events: Vec<NoteEvent>) -> PartSlice {
    slice(name, PartKind::Notes, events)
}

fn with_lyrics(mut s: PartSlice, verses: &[&[&str]]) -> PartSlice {
    s.lyrics = verses
        .iter()
        .map(|v| Lyrics {
            syllables: v.iter().map(|t| Syllable { text: t.to_string(), held: false }).collect(),
        })
        .collect();
    s
}

fn measure(parts: Vec<PartSlice>) -> MultiPartMeasure {
    MultiPartMeasure {
        time_signature: None,
        bpm: None,
        key: None,
        label: None,
        merge_duplicate_measures_across_parts: true,
        hide_resting_parts: true,
        system_break: false,
        parts: parts.into_iter().map(PartRow::Timed).collect(),
        source_span: Span::new(0, 0),
        diagnostics: Vec::new(),
    }
}

/// A measure opening with `time=<num>/<den> key=C4 bpm=<bpm>`.
fn opening(parts: Vec<PartSlice>, num: u8, den: u8, bpm: u32) -> MultiPartMeasure {
    MultiPartMeasure {
        time_signature: Some(TimeSignature { numerator: num, denominator: den }),
        bpm: Some(bpm),
        key: Some(KeyChange { note: Note { name: NoteName::C, octave: 4, accidental: Accidental::Natural } }),
        ..measure(parts)
    }
}

fn first(parts: Vec<PartSlice>) -> MultiPartMeasure {
    opening(parts, 4, 4, 120)
}

fn score(measures: Vec<MultiPartMeasure>) -> Score {
    Score { metadata: metadata(), measures, document_diagnostics: Vec::new(), sequence: None }
}

fn count<F: Fn(&ElementContent) -> bool>(row: &MeasureRow, f: F) -> usize {
    row.elements.iter().filter(|e| f(&e.content)).count()
}

// ── Basic elements and decorations ──────────────────────────────────────────

#[test]
fn single_quarter_note_produces_one_note_head_element() {
    let score = score(vec![first(vec![notes("S", vec![n(1, 16)])])]);
    let result = compile(&score);
    let blocks = result.blocks;
    assert!(!blocks.is_empty());
    let row = &blocks[0].rows[0];
    assert_eq!(count(row, |c| matches!(c, ElementContent::NoteHead { .. })), 1);
}

#[test]
fn bar_line_is_last_element_in_row() {
    let score = score(vec![first(vec![notes("S", vec![n(1, 16)])])]);
    let result = compile(&score);
    let row = &result.blocks[0].rows[0];
    let last = row.elements.last().unwrap();
    assert_eq!(last.content, ElementContent::BarLine);
}

#[test]
fn bpm_decoration_on_first_measure() {
    let score = score(vec![opening(vec![notes("S", vec![n(1, 16)])], 4, 4, 100)]);
    let result = compile(&score);
    let has_bpm = result.blocks[0]
        .decorations
        .iter()
        .any(|d| matches!(d, Decoration::DirectiveLine { bpm: Some(100), .. }));
    assert!(has_bpm);
}

#[test]
fn two_measures_produce_two_blocks() {
    let score = score(vec![
        first(vec![notes("S", vec![n(1, 16)])]),
        measure(vec![notes("S", vec![n(2, 16)])]),
    ]);
    let result = compile(&score);
    assert_eq!(result.blocks.len(), 2);
}

#[test]
fn eighth_notes_produce_underline_elements() {
    // `2_ 2_ 0 0 0`: two eighth notes (2 quarter-beats each) and three rests.
    let score = score(vec![first(vec![notes("S", vec![n(2, 2), n(2, 2), r(4), r(4), r(4)])])]);
    let result = compile(&score);
    let row = &result.blocks[0].rows[0];
    let underlines = count(row, |c| matches!(c, ElementContent::Underline { .. }));
    assert!(underlines > 0, "expected at least one underline");
}

#[test]
fn time_signature_appears_as_decoration() {
    let score = score(vec![first(vec![notes("S", vec![n(1, 16)])])]);
    let result = compile(&score);
    let has_ts = result.blocks[0].decorations.iter().any(|d| {
        matches!(d, Decoration::DirectiveLine { time_signature: Some((4, 4)), .. })
    });
    assert!(has_ts);
}

#[test]
fn bar_number_decoration_without_label() {
    let score = score(vec![
        first(vec![notes("S", vec![n(1, 16)])]),
        measure(vec![notes("S", vec![n(2, 16)])]),
    ]);
    let result = compile(&score);
    let blocks = result.blocks;
    let bar1 = blocks[0].decorations.first().unwrap();
    assert!(
        matches!(bar1, Decoration::DirectiveLine { bar_number: Some(1), .. }),
        "first measure should have bar_number=1"
    );
    let bar2 = blocks[1].decorations.first().unwrap();
    assert!(
        matches!(bar2, Decoration::DirectiveLine { bar_number: Some(2), .. }),
        "second measure should have bar_number=2"
    );
}

#[test]
fn section_label_measure_still_has_bar_number() {
    let m = MultiPartMeasure { label: Some("Verse 1".to_string()), ..first(vec![notes("S", vec![n(1, 16)])]) };
    let result = compile(&score(vec![m]));
    let dec = result.blocks[0].decorations.first().unwrap();
    assert!(
        matches!(dec, Decoration::DirectiveLine { bar_number: Some(_), .. }),
        "labeled measure should still show its bar number"
    );
    assert!(
        matches!(dec, Decoration::DirectiveLine { label: Some(_), .. }),
        "labeled measure should have a label"
    );
}

#[test]
fn rest_produces_rest_element() {
    // A lone `0` fills the whole 4/4 measure (equivalent to `0---`).
    let score = score(vec![first(vec![notes("S", vec![r(16)])])]);
    let result = compile(&score);
    let row = &result.blocks[0].rows[0];
    assert_eq!(count(row, |c| matches!(c, ElementContent::Rest { .. })), 1);
}

#[test]
fn bar_line_column_equals_total_duration() {
    // `1 2 3 4`: four quarter notes of 4 quarter-beats each.
    let score = score(vec![first(vec![notes("S", vec![n(1, 4), n(2, 4), n(3, 4), n(4, 4)])])]);
    let result = compile(&score);
    let row = &result.blocks[0].rows[0];
    let bar_line = row.elements.iter().find(|e| matches!(e.content, ElementContent::BarLine)).unwrap();
    assert_eq!(bar_line.column, 16, "bar line should be at column 16 for four quarter notes");
}

fn three_part_measure(hide_resting_parts: bool) -> Score {
    // A = notes+lyrics, B = chords (not mentioned: filled with rests), C = notes.
    let a = with_lyrics(
        slice("A", PartKind::NotesWithLyrics, vec![n(1, 4), n(2, 4), n(3, 4), n(4, 4)]),
        &[&["la", "la", "la", "la"]],
    );
    let b = slice("B", PartKind::Chords, vec![fill(4), fill(4), fill(4), fill(4)]);
    let c = notes("C", vec![n(1, 16)]);
    score(vec![MultiPartMeasure { hide_resting_parts, ..first(vec![a, b, c]) }])
}

#[test]
fn not_mentioned_chord_part_is_omitted_when_other_parts_have_notes() {
    let result = compile(&three_part_measure(true));
    let blocks = result.blocks;
    assert_eq!(blocks[0].rows.len(), 2, "B (rest-filled) should be omitted when A and C have notes");
    assert_eq!(blocks[0].rows[0].label, "A", "first row label should be A");
    assert_eq!(blocks[0].rows[1].label, "C", "second row label should be C");
}

#[test]
fn not_mentioned_part_is_kept_when_hide_resting_parts_is_disabled() {
    let result = compile(&three_part_measure(false));
    assert_eq!(
        result.blocks[0].rows.len(),
        3,
        "B (rest-filled) should be kept when hide_resting_parts is disabled"
    );
}

#[test]
fn extended_note_produces_note_dash_at_each_extra_beat() {
    // `1- 2-`: two half notes.
    let score = score(vec![first(vec![notes("S", vec![n(1, 8), n(2, 8)])])]);
    let result = compile(&score);
    let row = &result.blocks[0].rows[0];
    let dashes: Vec<_> =
        row.elements.iter().filter(|e| matches!(e.content, ElementContent::NoteDash { .. })).collect();
    assert_eq!(dashes.len(), 2, "two half notes should produce two NoteDash elements");
    assert_eq!(dashes[0].column, 4, "first NoteDash should be at column 4");
    assert_eq!(dashes[1].column, 12, "second NoteDash should be at column 12");
}

#[test]
fn extended_chord_produces_note_dash_at_each_extra_beat() {
    // `1 - - -`: a whole-note chord.
    let score = score(vec![first(vec![slice("C", PartKind::Chords, vec![chord(1, 16, false)])])]);
    let result = compile(&score);
    let row = &result.blocks[0].rows[0];
    let dashes: Vec<_> =
        row.elements.iter().filter(|e| matches!(e.content, ElementContent::NoteDash { .. })).collect();
    assert_eq!(dashes.len(), 3, "three `-` tokens should produce three NoteDash elements");
    assert_eq!(dashes[0].column, 4, "first dash at column 4");
    assert_eq!(dashes[1].column, 8, "second dash at column 8");
    assert_eq!(dashes[2].column, 12, "third dash at column 12");
}

#[test]
fn dotted_chord_produces_chord_symbol_with_dotted_flag_set() {
    // `1. 3`: a dotted-quarter chord and a quarter chord.
    let score =
        score(vec![first(vec![slice("C", PartKind::Chords, vec![chord(1, 6, true), chord(3, 4, false)])])]);
    let result = compile(&score);
    let row = &result.blocks[0].rows[0];
    let chord_symbols: Vec<_> = row
        .elements
        .iter()
        .filter_map(|e| match &e.content {
            ElementContent::ChordSymbol { text, dotted, .. } => Some((text.clone(), *dotted)),
            _ => None,
        })
        .collect();
    assert_eq!(chord_symbols, vec![("1".to_string(), true), ("3".to_string(), false)]);
}

#[test]
fn dotted_note_extended_with_dotted_beats_produces_note_dash_at_each_extra_beat() {
    // 9/8: `1. -. -.` is a dotted quarter plus two dotted-beat extensions.
    let note = NoteEvent::Note(GroupedNote { dotted: true, ..grouped_note(1, 18) });
    let mut s = notes("S", vec![note]);
    s.beat_group_size = 6;
    let score = score(vec![opening(vec![s], 9, 8, 120)]);
    let result = compile(&score);
    let row = &result.blocks[0].rows[0];
    let dashes: Vec<_> =
        row.elements.iter().filter(|e| matches!(e.content, ElementContent::NoteDash { .. })).collect();
    assert_eq!(dashes.len(), 2, "two `-.` tokens should produce two NoteDash elements");
    assert_eq!(dashes[0].column, 6, "first dash at column 6");
    assert_eq!(dashes[1].column, 12, "second dash at column 12");
}

#[test]
fn compound_meter_nine_eighth_groups_underlines_three_by_three() {
    // 9/8: `1_1_1_ 2_2_2_ 3_3_3_`, nine eighth notes.
    let events = vec![n(1, 2), n(1, 2), n(1, 2), n(2, 2), n(2, 2), n(2, 2), n(3, 2), n(3, 2), n(3, 2)];
    let mut s = notes("S", events);
    s.beat_group_size = 6;
    let score = score(vec![opening(vec![s], 9, 8, 120)]);
    let result = compile(&score);
    let row = &result.blocks[0].rows[0];
    let underline_starts: Vec<u32> = row
        .elements
        .iter()
        .filter_map(|e| match e.content {
            ElementContent::Underline { level: 0, .. } => Some(e.column),
            _ => None,
        })
        .collect();
    assert_eq!(
        underline_starts,
        vec![0, 6, 12],
        "expected three beam groups of 3 eighth notes each (columns 0, 6, 12)"
    );
}

#[test]
fn note_head_column_is_zero_indexed() {
    let score = score(vec![first(vec![notes("S", vec![n(1, 16)])])]);
    let result = compile(&score);
    let row = &result.blocks[0].rows[0];
    let note_head = row.elements.iter().find(|e| matches!(e.content, ElementContent::NoteHead { .. })).unwrap();
    assert_eq!(note_head.column, 0);
}

// ── Resting parts, implicit fill ───────────────────────────────────────────

#[test]
fn hide_resting_parts_directive_toggles_mid_score() {
    let a1 = with_lyrics(
        slice("A", PartKind::NotesWithLyrics, vec![n(1, 4), n(2, 4), n(3, 4), n(4, 4)]),
        &[&["la", "la", "la", "la"]],
    );
    let b1 = slice("B", PartKind::Chords, vec![fill(4), fill(4), fill(4), fill(4)]);
    let a2 = with_lyrics(
        slice("A", PartKind::NotesWithLyrics, vec![n(5, 4), n(6, 4), n(7, 4), n(1, 4)]),
        &[&["lo", "lo", "lo", "lo"]],
    );
    let b2 = slice("B", PartKind::Chords, vec![fill(4), fill(4), fill(4), fill(4)]);
    let m2 = MultiPartMeasure { hide_resting_parts: false, ..measure(vec![a2, b2]) };
    let result = compile(&score(vec![first(vec![a1, b1]), m2]));
    let blocks = result.blocks;
    assert_eq!(blocks[0].rows.len(), 1, "measure 1: default hide_resting_parts=yes omits rest-filled B");
    assert_eq!(blocks[1].rows.len(), 2, "measure 2: hide_resting_parts=no keeps rest-filled B");
}

fn rest_flags(row: &MeasureRow) -> Vec<bool> {
    row.elements
        .iter()
        .filter_map(|e| match &e.content {
            ElementContent::Rest { implicit_fill, .. } => Some(*implicit_fill),
            _ => None,
        })
        .collect()
}

#[test]
fn not_mentioned_part_s_filled_rest_is_marked_implicit_fill() {
    let a = notes("A", vec![n(1, 4), n(2, 4), n(3, 4), n(4, 4)]);
    let b = notes("B", vec![fill(4), fill(4), fill(4), fill(4)]);
    let m = MultiPartMeasure { hide_resting_parts: false, ..first(vec![a, b]) };
    let result = compile(&score(vec![m]));
    let b_row = &result.blocks[0].rows[1];
    assert_eq!(b_row.label, "B");
    let rests = rest_flags(b_row);
    assert_eq!(rests.len(), 4, "expected one rest per beat");
    assert!(
        rests.iter().all(|&implicit_fill| implicit_fill),
        "B was never mentioned in this measure, so every filled rest should be implicit_fill"
    );
}

#[test]
fn explicitly_written_rest_is_not_marked_implicit_fill() {
    let a = notes("A", vec![n(1, 4), n(2, 4), n(3, 4), n(4, 4)]);
    let b = notes("B", vec![r(4), r(4), r(4), r(4)]);
    let m = MultiPartMeasure { hide_resting_parts: false, ..first(vec![a, b]) };
    let result = compile(&score(vec![m]));
    let b_row = &result.blocks[0].rows[1];
    assert_eq!(b_row.label, "B");
    let rests = rest_flags(b_row);
    assert_eq!(rests.len(), 4, "expected one rest per beat");
    assert!(
        rests.iter().all(|&implicit_fill| !implicit_fill),
        "B wrote its own rests explicitly, so none should be implicit_fill"
    );
}

// ── Lyrics and diagnostics ─────────────────────────────────────────────────

fn lyric_part(events: Vec<NoteEvent>, syllables: &[&str]) -> PartSlice {
    with_lyrics(slice("S", PartKind::NotesWithLyrics, events), &[syllables])
}

fn underflow(found: usize) -> Diagnostic {
    Diagnostic::Warning(Warning {
        span: Span::new(0, 0),
        message: format!("lyrics underflow: 4 notes but {found} syllables"),
    })
}

#[test]
fn cross_measure_tilde_tie_does_not_consume_lyric_slot_for_continuation_note() {
    // Bar 1: `1 2 3 4~` / `ha ta ba na`; bar 2: `4 5 6 7` / `sa da ko`.
    let bar1 = lyric_part(vec![n(1, 4), n(2, 4), n(3, 4), tied(4, 4)], &["ha", "ta", "ba", "na"]);
    let bar2 = lyric_part(vec![n(4, 4), n(5, 4), n(6, 4), n(7, 4)], &["sa", "da", "ko"]);
    let result = compile(&score(vec![first(vec![bar1]), measure(vec![bar2])]));
    let bar2 = &result.blocks[1].rows[0];
    let lyrics: Vec<_> = bar2
        .elements
        .iter()
        .filter_map(|e| {
            if let ElementContent::Lyric { text, .. } = &e.content {
                Some((e.column, text.as_str()))
            } else {
                None
            }
        })
        .collect();
    assert_eq!(
        lyrics,
        vec![(4, "sa"), (8, "da"), (12, "ko")],
        "lyrics should be assigned to notes 5, 6, 7 (columns 4, 8, 12), not to the tied continuation note 4"
    );
}

#[test]
fn lyrics_underflow_errors_propagate_to_measure_block() {
    // 4 notes but only 2 syllables: the grouper reports an underflow.
    let part = lyric_part(vec![n(1, 4), n(2, 4), n(3, 4), n(4, 4)], &["a", "b"]);
    let m = MultiPartMeasure { diagnostics: vec![underflow(2)], ..first(vec![part]) };
    let result = compile(&score(vec![m]));
    assert_eq!(result.blocks.len(), 1);
    assert_eq!(result.blocks[0].diagnostics.len(), 1);
    assert!(result.blocks[0].diagnostics[0].message().contains("underflow"));
}

#[test]
fn matching_lyrics_produce_no_block_errors() {
    let part = lyric_part(vec![n(1, 4), n(2, 4), n(3, 4), n(4, 4)], &["a", "b", "c", "d"]);
    let result = compile(&score(vec![first(vec![part])]));
    assert!(result.blocks[0].diagnostics.is_empty());
}

#[test]
fn lyrics_underflow_in_first_measure_only() {
    let p1 = lyric_part(vec![n(1, 4), n(2, 4), n(3, 4), n(4, 4)], &["a", "b"]);
    let p2 = lyric_part(vec![n(5, 4), n(6, 4), n(7, 4), n(1, 4)], &["c", "d", "e", "f"]);
    let m1 = MultiPartMeasure { diagnostics: vec![underflow(2)], ..first(vec![p1]) };
    let result = compile(&score(vec![m1, measure(vec![p2])]));
    assert_eq!(result.blocks.len(), 2);
    assert_eq!(result.blocks[0].diagnostics.len(), 1);
    assert!(result.blocks[0].diagnostics[0].message().contains("underflow"));
    assert!(result.blocks[1].diagnostics.is_empty());
}

// ── Standalone lyrics parts ─────────────────────────────────────────────────

fn lyric_lines(row: &MeasureRow) -> Vec<(u32, &str, usize)> {
    row.elements
        .iter()
        .filter_map(|e| {
            if let ElementContent::LyricLine { text, verse } = &e.content {
                Some((e.column, text.as_str(), *verse))
            } else {
                None
            }
        })
        .collect()
}

fn caption_score(verses: &[&[&str]]) -> Score {
    let m = notes("M", vec![n(1, 4), n(2, 4), n(3, 4), n(4, 4)]);
    let c = with_lyrics(slice("C", PartKind::Lyrics, Vec::new()), verses);
    score(vec![first(vec![m, c])])
}

#[test]
fn lyrics_only_part_emits_one_line_per_verse_at_column_zero() {
    let result = compile(&caption_score(&[&["hello", "world"]]));
    let block = &result.blocks[0];
    let caption_row = block.rows.iter().find(|r| lyric_lines(r).len() == 1).expect("caption row with one lyric line");
    assert_eq!(lyric_lines(caption_row), vec![(0, "hello world", 0)]);
}

#[test]
fn lyrics_only_part_rejoins_tokenized_syllables_with_spaces() {
    // `春天` tokenizes into one syllable per character.
    let result = compile(&caption_score(&[&["春", "天"]]));
    let block = &result.blocks[0];
    let caption_row = block.rows.iter().find(|r| !lyric_lines(r).is_empty()).expect("caption row");
    assert_eq!(lyric_lines(caption_row)[0].1, "春 天");
}

#[test]
fn lyrics_only_part_supports_multiple_verses() {
    let result = compile(&caption_score(&[&["verse", "one"], &["verse", "two"]]));
    let block = &result.blocks[0];
    let caption_row =
        block.rows.iter().find(|r| lyric_lines(r).len() == 2).expect("caption row with two verses");
    let lines = lyric_lines(caption_row);
    assert_eq!(lines[0], (0, "verse one", 0));
    assert_eq!(lines[1], (0, "verse two", 1));
}

#[test]
fn lyrics_only_part_coexists_with_notes_part_in_same_measure() {
    let result = compile(&caption_score(&[&["caption", "text"]]));
    let block = &result.blocks[0];
    assert_eq!(block.rows.len(), 2, "notes row + lyrics-only row");
    let notes_row = &block.rows[0];
    assert!(notes_row.elements.iter().any(|e| matches!(e.content, ElementContent::NoteHead { .. })));
    assert!(lyric_lines(notes_row).is_empty());
}

// ── Collapsed rest runs ─────────────────────────────────────────────────────

fn rests4() -> PartSlice {
    notes("S", vec![r(4), r(4), r(4), r(4)])
}

fn rests3() -> PartSlice {
    notes("S", vec![r(4), r(4), r(4)])
}

#[test]
fn three_consecutive_rest_measures_collapse_into_one_multi_measure_rest_block() {
    let score = score(vec![
        first(vec![notes("S", vec![n(1, 16)])]),
        measure(vec![rests4()]),
        measure(vec![rests4()]),
        measure(vec![rests4()]),
    ]);
    let result = compile(&score);
    let blocks = result.blocks;
    assert_eq!(blocks.len(), 2, "one normal block for measure 1, one merged block for the 3-measure rest run");
    let merged = &blocks[1];
    assert_eq!(merged.represents_measures, 3);
    let row = &merged.rows[0];
    let multi_rest = count(row, |c| matches!(c, ElementContent::MultiMeasureRest { count: 3 }));
    assert_eq!(multi_rest, 1, "merged block should have exactly one MultiMeasureRest element with count=3");
}

#[test]
fn lone_rest_measure_run_of_length_one_stays_uncollapsed() {
    let score = score(vec![
        first(vec![notes("S", vec![n(1, 16)])]),
        measure(vec![rests4()]),
        measure(vec![notes("S", vec![n(2, 16)])]),
    ]);
    let result = compile(&score);
    let blocks = result.blocks;
    assert_eq!(blocks.len(), 3, "no collapsing should occur");
    for block in &blocks {
        assert_eq!(block.represents_measures, 1);
    }
    let rest_row = &blocks[1].rows[0];
    assert!(
        rest_row.elements.iter().any(|e| matches!(e.content, ElementContent::Rest { .. })),
        "lone rest measure should keep its individual Rest elements"
    );
}

#[test]
fn time_signature_change_interrupts_a_rest_run() {
    let three_four = MultiPartMeasure {
        time_signature: Some(TimeSignature { numerator: 3, denominator: 4 }),
        ..measure(vec![rests3()])
    };
    let score = score(vec![
        first(vec![notes("S", vec![n(1, 16)])]),
        measure(vec![rests4()]),
        measure(vec![rests4()]),
        three_four,
        measure(vec![rests3()]),
        measure(vec![rests3()]),
    ]);
    let result = compile(&score);
    let blocks = result.blocks;
    assert_eq!(blocks.len(), 4, "blocks={blocks:#?}");
    assert_eq!(blocks[0].represents_measures, 1);
    assert_eq!(blocks[1].represents_measures, 2);
    assert_eq!(blocks[2].represents_measures, 1);
    assert!(
        blocks[2]
            .decorations
            .iter()
            .any(|d| matches!(d, Decoration::DirectiveLine { time_signature: Some((3, 4)), .. })),
        "the time-signature-change measure must stay uncollapsed and keep its decoration"
    );
    assert_eq!(blocks[3].represents_measures, 2);
}

#[test]
fn redundant_time_signature_directive_does_not_interrupt_a_rest_run() {
    // Measure 1 starts in the default 4/4; measure 3 restates `time=4/4`,
    // which changes nothing, so its grouped form carries no time signature.
    let opening_measure = MultiPartMeasure { time_signature: None, ..first(vec![notes("S", vec![n(1, 16)])]) };
    let score = score(vec![
        opening_measure,
        measure(vec![rests4()]),
        measure(vec![rests4()]),
        measure(vec![rests4()]),
    ]);
    let result = compile(&score);
    let blocks = result.blocks;
    assert_eq!(blocks.len(), 2, "blocks={blocks:#?}");
    assert_eq!(blocks[0].represents_measures, 1, "measure 1 has a note");
    assert_eq!(blocks[1].represents_measures, 3, "the redundant time=4/4 on measure 3 must not split the rest run");
}

#[test]
fn labeled_measure_starts_a_new_rest_run_instead_of_joining_the_previous_one() {
    let labeled = MultiPartMeasure { label: Some("Verse 1".to_string()), ..measure(vec![rests4()]) };
    let score = score(vec![
        first(vec![notes("S", vec![n(1, 16)])]),
        measure(vec![rests4()]),
        measure(vec![rests4()]),
        labeled,
        measure(vec![rests4()]),
    ]);
    let result = compile(&score);
    let blocks = result.blocks;
    assert_eq!(blocks.len(), 3, "blocks={blocks:#?}");
    assert_eq!(blocks[0].represents_measures, 1, "measure 1 has a note");
    assert_eq!(blocks[1].represents_measures, 2, "measures 2-3 (rest) merge before the labeled measure");
    assert!(
        !blocks[1].decorations.iter().any(|d| matches!(d, Decoration::DirectiveLine { label: Some(_), .. })),
        "the pre-label run carries no label"
    );
    assert_eq!(
        blocks[2].represents_measures, 2,
        "the label breaks off a new run rather than joining the previous one, but still \
         merges forward with the trailing rest measure"
    );
    assert!(
        blocks[2].decorations.iter().any(|d| matches!(
            d,
            Decoration::DirectiveLine { label: Some(l), .. } if l == "Verse 1"
        )),
        "the label must remain visible on the merged block it heads, blocks={blocks:#?}"
    );
}

#[test]
fn diagnostic_bearing_measure_interrupts_a_rest_run() {
    // Measure 3, `1 1 1 1 1`, overflows the bar: its fifth note is trimmed
    // and the measure carries a diagnostic.
    let overflow = MultiPartMeasure {
        diagnostics: vec![Diagnostic::Warning(Warning {
            span: Span::new(0, 0),
            message: "beat overflow: notes trimmed".to_string(),
        })],
        ..measure(vec![notes("S", vec![n(1, 4), n(1, 4), n(1, 4), n(1, 4)])])
    };
    let score = score(vec![
        first(vec![rests4()]),
        measure(vec![rests4()]),
        overflow,
        measure(vec![rests4()]),
        measure(vec![rests4()]),
    ]);
    let result = compile(&score);
    let blocks = result.blocks;
    let middle = blocks
        .iter()
        .find(|b| !b.diagnostics.is_empty())
        .expect("overflowing measure should carry a diagnostic");
    assert_eq!(middle.represents_measures, 1, "a measure with diagnostics must never be folded into a rest run");
}

// ── System breaks ───────────────────────────────────────────────────────────

fn with_break(m: MultiPartMeasure) -> MultiPartMeasure {
    MultiPartMeasure { system_break: true, ..m }
}

#[test]
fn break_directive_sets_system_break_only_on_its_own_measure() {
    let score = score(vec![
        first(vec![notes("S", vec![n(1, 4), n(2, 4), n(3, 4), n(4, 4)])]),
        with_break(measure(vec![notes("S", vec![n(5, 4), n(6, 4), n(7, 4), n(1, 4)])])),
        measure(vec![notes("S", vec![n(1, 4), n(2, 4), n(3, 4), n(4, 4)])]),
    ]);
    let result = compile(&score);
    let blocks = result.blocks;
    assert!(!blocks[0].system_break, "measure 1: no break directive");
    assert!(blocks[1].system_break, "measure 2: break directive present");
    assert!(!blocks[2].system_break, "measure 3: break does not persist from measure 2");
}

#[test]
fn break_directive_combines_with_other_directives_on_same_line() {
    let second = MultiPartMeasure {
        bpm: Some(100),
        ..with_break(measure(vec![notes("S", vec![n(5, 4), n(6, 4), n(7, 4), n(1, 4)])]))
    };
    let score = score(vec![first(vec![notes("S", vec![n(1, 4), n(2, 4), n(3, 4), n(4, 4)])]), second]);
    let result = compile(&score);
    let blocks = result.blocks;
    assert_eq!(blocks[1].decorations.len(), 1);
    let Decoration::DirectiveLine { bpm, .. } = &blocks[1].decorations[0];
    assert_eq!(*bpm, Some(100));
    assert!(blocks[1].system_break);
}

#[test]
fn break_directive_on_a_measure_absorbed_by_a_rest_run_still_starts_a_fresh_run() {
    let score = score(vec![
        first(vec![notes("S", vec![n(1, 4), n(2, 4), n(3, 4), n(4, 4)])]),
        measure(vec![rests4()]),
        with_break(measure(vec![rests4()])),
        measure(vec![rests4()]),
    ]);
    let result = compile(&score);
    let blocks = result.blocks;
    assert_eq!(blocks.len(), 3, "measure 1, measure 2 alone, measures 3-4 merged");
    assert!(!blocks[0].system_break);
    assert!(!blocks[1].system_break);
    assert!(blocks[2].system_break);
    assert_eq!(blocks[2].represents_measures, 2);
}

// ── Source spans ────────────────────────────────────────────────────────────

fn spanned(m: MultiPartMeasure, start: usize, end: usize) -> MultiPartMeasure {
    MultiPartMeasure { source_span: Span::new(start, end), ..m }
}

#[test]
fn measure_block_source_span_is_nonzero_after_compile() {
    let m = spanned(first(vec![notes("S", vec![n(1, 4), n(2, 4), n(3, 4), n(4, 4)])]), 77, 88);
    let result = compile(&score(vec![m]));
    assert_eq!(result.blocks.len(), 1);
    assert!(
        result.blocks[0].source_span.end > 0,
        "source_span.end should be > 0, got {:?}",
        result.blocks[0].source_span
    );
}

#[test]
fn merged_rest_run_source_span_covers_the_whole_run() {
    let score = score(vec![
        spanned(first(vec![rests4()]), 77, 88),
        spanned(measure(vec![rests4()]), 90, 101),
        spanned(measure(vec![notes("S", vec![n(1, 4), n(2, 4), n(3, 4), n(4, 4)])]), 103, 114),
    ]);
    let result = compile(&score);
    assert_eq!(result.blocks.len(), 2);
    let rest_block = &result.blocks[0];
    assert_eq!(rest_block.represents_measures, 2);
    let note_block = &result.blocks[1];
    assert!(
        rest_block.source_span.end <= note_block.source_span.start,
        "merged rest run's span {:?} should end before the following measure's span {:?} starts",
        rest_block.source_span,
        note_block.source_span
    );
    assert!(
        rest_block.source_span.end > rest_block.source_span.start,
        "merged rest run's span should cover real source text, got {:?}",
        rest_block.source_span
    );
}

// ── Tuplets ─────────────────────────────────────────────────────────────────

#[test]
fn tuplet_measure_flushes_underlines_at_multiplier_scaled_quarter_beat_boundaries() {
    // `3:{1_1_1_} 2_ 3_ 4_ 5_ 6_ 7_` rescaled by 3: the triplet's notes last 4
    // columns each, the plain eighth notes 6.
    let triplet = |d: u8| NoteEvent::Note(GroupedNote { tuplet: Some(TupletInfo { num: 3, den: 2 }), ..grouped_note(d, 4) });
    let events = vec![triplet(1), triplet(1), triplet(1), n(2, 6), n(3, 6), n(4, 6), n(5, 6), n(6, 6), n(7, 6)];
    let mut s = notes("S", events);
    s.resolution_multiplier = 3;
    let result = compile(&score(vec![first(vec![s])]));
    let row = &result.blocks[0].rows[0];
    let underlines: Vec<(u32, u32)> = row
        .elements
        .iter()
        .filter_map(|e| match &e.content {
            ElementContent::Underline { from_column, to_column, .. } => Some((*from_column, *to_column)),
            _ => None,
        })
        .collect();
    assert_eq!(
        underlines,
        vec![(0, 12), (12, 24), (24, 36), (36, 48)],
        "the eighth-note triplet should flush into its own underline run, followed by \
         the plain eighth notes' 3 underline runs at the multiplier-scaled quarter-beat boundaries"
    );
    let bar_line = row.elements.iter().find(|e| matches!(e.content, ElementContent::BarLine)).unwrap();
    assert_eq!(bar_line.column, 48, "bar line column should equal the rescaled total duration (3*4 + 6*6 = 48)");
}

// ── Slurs ───────────────────────────────────────────────────────────────────

fn has_span(result: &jianpu::compiler::CompileResult, fm: usize, fc: u32, tm: usize, tc: u32) -> bool {
    result.slur_spans.iter().any(|s| {
        s.part_index == 0 && s.from_measure == fm && s.from_column == fc && s.to_measure == tm && s.to_column == tc
    })
}

/// Bar 1 `1 2 3 (4`: the slur opens on note 4.
fn opening_bar() -> MultiPartMeasure {
    first(vec![notes("S", vec![n(1, 4), n(2, 4), n(3, 4), slurred(4, 4, 1, 1)])])
}

#[test]
fn three_same_pitch_notes_in_slur_emits_one_slur_arc() {
    // `1 (555)`
    let events = vec![n(1, 4), slurred(5, 4, 1, 1), slurred(5, 4, 1, 1), slurred(5, 4, 1, 0)];
    let result = compile(&score(vec![first(vec![notes("S", events)])]));
    assert_eq!(result.slur_spans.len(), 1, "expected 1 slur arc for (555), got: {:?}", result.slur_spans);
    assert!(
        result.slur_spans.iter().any(|s| s.from_column == 4 && s.to_column == 12),
        "expected arc col 4→12, got: {:?}",
        result.slur_spans
    );
}

#[test]
fn same_measure_slur_emits_slur_span() {
    // `(4 5) 0 0`
    let events = vec![slurred(4, 4, 1, 1), slurred(5, 4, 1, 0), r(4), r(4)];
    let result = compile(&score(vec![first(vec![notes("S", events)])]));
    assert!(
        has_span(&result, 0, 0, 0, 4),
        "expected SlurSpan (measure=0, col=0) → (measure=0, col=4), got: {:?}",
        result.slur_spans
    );
}

#[test]
fn cross_measure_slur_emits_single_slur_span() {
    // Bar 2 `5) 6 7 1`
    let bar2 = measure(vec![notes("S", vec![slurred(5, 4, 1, 0), n(6, 4), n(7, 4), n(1, 4)])]);
    let result = compile(&score(vec![opening_bar(), bar2]));
    assert!(
        has_span(&result, 0, 12, 1, 0),
        "expected SlurSpan (measure=0, col=12) → (measure=1, col=0), got: {:?}",
        result.slur_spans
    );
    assert!(
        result.slur_spans.iter().all(|s| s.from_column != 16 && s.to_column != 16),
        "no slur span should touch barline col 16, got: {:?}",
        result.slur_spans
    );
}

#[test]
fn cross_measure_same_pitch_slur_emits_single_slur_span() {
    // Bar 2 `4) 5 6 7`
    let bar2 = measure(vec![notes("S", vec![slurred(4, 4, 1, 0), n(5, 4), n(6, 4), n(7, 4)])]);
    let result = compile(&score(vec![opening_bar(), bar2]));
    assert!(
        has_span(&result, 0, 12, 1, 0),
        "expected SlurSpan (measure=0, col=12) → (measure=1, col=0), got: {:?}",
        result.slur_spans
    );
}

#[test]
fn cross_measure_slur_closing_on_extension_dash() {
    // Bar 2 `5 -) - -`: the whole note's group closes at its first dash.
    let closing = NoteEvent::Note(GroupedNote {
        group_membership: 1,
        group_continuation: 1,
        slur_group_close_at_duration: Some(4),
        ..grouped_note(5, 16)
    });
    let result = compile(&score(vec![opening_bar(), measure(vec![notes("S", vec![closing])])]));
    assert!(
        has_span(&result, 0, 12, 1, 4),
        "expected SlurSpan (measure=0, col=12) → (measure=1, col=4), got: {:?}",
        result.slur_spans
    );
    assert!(result.slur_spans.iter().all(|s| s.to_column != 16), "no slur span should end at barline col 16");
}

#[test]
fn three_measure_slur_emits_single_slur_span() {
    // `(1 2 3 4` / `5 6 7 1` / `2) 3 4 5`
    let bar1 = first(vec![notes(
        "S",
        vec![slurred(1, 4, 1, 1), slurred(2, 4, 1, 1), slurred(3, 4, 1, 1), slurred(4, 4, 1, 1)],
    )]);
    let bar2 = measure(vec![notes(
        "S",
        vec![slurred(5, 4, 1, 1), slurred(6, 4, 1, 1), slurred(7, 4, 1, 1), slurred(1, 4, 1, 1)],
    )]);
    let bar3 = measure(vec![notes("S", vec![slurred(2, 4, 1, 0), n(3, 4), n(4, 4), n(5, 4)])]);
    let result = compile(&score(vec![bar1, bar2, bar3]));
    assert!(
        has_span(&result, 0, 0, 2, 0),
        "expected SlurSpan (measure=0, col=0) → (measure=2, col=0), got: {:?}",
        result.slur_spans
    );
}

#[test]
fn cross_measure_arc_dropped_when_target_measure_has_error() {
    // Bar 2 `- 5) 6 7 1`: the leading `-` is an error, so the measure drops
    // the incoming slur opening.
    let mut bar2 = notes("S", vec![slurred(5, 4, 1, 0), n(6, 4), n(7, 4), n(1, 4)]);
    bar2.has_error = true;
    let result = compile(&score(vec![opening_bar(), measure(vec![bar2])]));
    assert!(
        result.slur_spans.iter().all(|s| !(s.from_measure == 0 && s.to_measure == 1)),
        "cross-measure arc into errored measure should be dropped, got: {:?}",
        result.slur_spans
    );
}

#[test]
fn three_measure_slur_with_single_note_middle_measure() {
    // `1 2 3 (4` / `5 6 7 1` / `2) 3 4 5`
    let bar2 = measure(vec![notes(
        "S",
        vec![slurred(5, 4, 1, 1), slurred(6, 4, 1, 1), slurred(7, 4, 1, 1), slurred(1, 4, 1, 1)],
    )]);
    let bar3 = measure(vec![notes("S", vec![slurred(2, 4, 1, 0), n(3, 4), n(4, 4), n(5, 4)])]);
    let result = compile(&score(vec![opening_bar(), bar2, bar3]));
    assert!(
        has_span(&result, 0, 12, 2, 0),
        "expected SlurSpan (measure=0, col=12) → (measure=2, col=0), got: {:?}",
        result.slur_spans
    );
}
