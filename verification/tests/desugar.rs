//! Desugaring of keyed measure groups: implicit fill, `[Key]` prefixes,
//! `follow[X]` targets, positional lyric lines and group broadcasts.

use jianpu::ast::parsed::{PartDecl, PartKind, Soundfont};
use jianpu::desugar::desugar_groups;
use jianpu::desugar::lines::ResolvedGroup;
use jianpu::error::{RecoverableErrorKind, Span};

fn decl(name: &str, kind: PartKind) -> PartDecl {
    PartDecl {
        abbreviation: name.to_string(),
        abbreviation_span: Span::new(0, 0),
        display_name: name.to_string(),
        kind,
        follow_target: None,
        soundfont: Soundfont::default(),
        volume: 100,
        octave_offset: 0,
    }
}

fn decl_follow(name: &str, kind: PartKind, target: &str) -> PartDecl {
    PartDecl {
        abbreviation: name.to_string(),
        abbreviation_span: Span::new(0, 0),
        display_name: name.to_string(),
        kind,
        follow_target: Some(target.to_string()),
        soundfont: Soundfont::default(),
        volume: 100,
        octave_offset: 0,
    }
}

fn group(lines: &[&str]) -> Vec<(String, usize)> {
    lines
        .iter()
        .enumerate()
        .map(|(i, l)| (l.to_string(), i * 10))
        .collect()
}

fn resolved_group(abbrev: &str, members: &[&str]) -> ResolvedGroup {
    ResolvedGroup {
        abbreviation: abbrev.to_string(),
        members: members.iter().map(|m| m.to_string()).collect(),
    }
}

#[test]
fn abbreviation_reference_span_covers_only_trimmed_key_text() {
    let groups = vec![group(&["[ A ] 1 2 3 4"])];
    let declarations = vec![decl("A", PartKind::Notes)];
    let (_result, _slots, _errors, refs) = desugar_groups(groups, &declarations, &[], 0).unwrap();
    assert_eq!(refs.len(), 1);
    assert_eq!(refs[0].abbreviation, "A");
    // "[ A ] 1 2 3 4" -> `A` starts at byte 2, right after `[ `.
    assert_eq!(refs[0].span.start, 2);
    assert_eq!(refs[0].span.end, 3);
}

#[test]
fn tests_score_lines_are_passed_through_unchanged() {
    let groups = vec![group(&["[A] 1 2 3 4", "[A] hello"])];
    let declarations = vec![decl("A", PartKind::NotesWithLyrics)];
    let (result, _slots, _, _refs) = desugar_groups(groups, &declarations, &[], 0).unwrap();
    assert_eq!(result[0][0].content, "1 2 3 4");
    assert_eq!(result[0][1].content, "hello");
}

#[test]
fn tests_omitted_trailing_lyrics_without_precedent_fills_with_no_lyrics_silently() {
    let groups = vec![group(&["[A] 1 2 3 4"])];
    let declarations = vec![decl("A", PartKind::NotesWithLyrics)];
    let (result, _slots, errors, _refs) = desugar_groups(groups, &declarations, &[], 0).unwrap();
    assert_eq!(
        result[0][1].content, "_",
        "should fill in underscore placeholder"
    );
    assert!(
        errors[0].is_none(),
        "omitted lyrics with no precedent should not produce an error"
    );
}

#[test]
fn tests_omitted_trailing_notes_without_precedent_fills_with_rest_silently() {
    let groups = vec![group(&["[A] 1 - - -"])];
    let declarations = vec![decl("A", PartKind::Chords), decl("B", PartKind::Notes)];
    let (result, _slots, errors, _refs) = desugar_groups(groups, &declarations, &[], 0).unwrap();
    assert_eq!(
        result[0][1].content, "0 0 0 0",
        "should fill in quarter-rest placeholder for all 4 beats"
    );
    assert!(
        errors[0].is_none(),
        "omitted notes with no precedent should not produce an error"
    );
}

#[test]
fn tests_omitted_trailing_chord_without_precedent_fills_with_rest_silently() {
    let groups = vec![group(&["[A] 1 2 3 4"])];
    let declarations = vec![decl("A", PartKind::Notes), decl("B", PartKind::Chords)];
    let (result, _slots, errors, _refs) = desugar_groups(groups, &declarations, &[], 0).unwrap();
    assert_eq!(
        result[0][1].content, "0 0 0 0",
        "should fill in chord-rest placeholder for all 4 beats"
    );
    assert!(
        errors[0].is_none(),
        "omitted chord with no precedent should not produce an error"
    );
}

#[test]
fn tests_key_prefix_only_c_plays_others_fill_implicitly() {
    let groups = vec![group(&["[C] 5 6 7 0"])];
    let declarations = vec![
        decl("A", PartKind::Notes),
        decl("B", PartKind::Notes),
        decl("C", PartKind::Notes),
    ];
    let (result, _slots, errors, _refs) = desugar_groups(groups, &declarations, &[], 0).unwrap();
    assert_eq!(result[0][0].content, "0 0 0 0", "A: no precedent → rest");
    assert_eq!(result[0][1].content, "0 0 0 0", "B: no precedent → rest");
    assert_eq!(result[0][2].content, "5 6 7 0", "C: explicit content");
    assert!(errors[0].is_none());
}

#[test]
fn tests_key_prefix_unknown_abbreviation_is_recoverable_error() {
    let groups = vec![group(&["[Z] 1 2 3 4"])];
    let declarations = vec![decl("A", PartKind::Notes)];
    let (result, _slots, errors, _refs) = desugar_groups(groups, &declarations, &[], 0).unwrap();
    assert_eq!(result[0][0].content, "0 0 0 0");
    let err = errors[0]
        .as_ref()
        .expect("should produce a recoverable error");
    assert!(err.message().contains("[Z]"), "got: {}", err.message());
    assert!(
        err.message().contains("abbreviation"),
        "got: {}",
        err.message()
    );
    assert_eq!(err.span.start, 0, "span must start at `[`");
    assert_eq!(err.span.end, "[Z]".len(), "span must cover `[Z]`");
}

#[test]
fn tests_follow_with_no_key_override_copies_target_content() {
    let groups = vec![group(&["[A] 1 2 3 4"])];
    let declarations = vec![
        decl("A", PartKind::Notes),
        decl_follow("B", PartKind::Notes, "A"),
    ];
    let (result, _slots, _, _refs) = desugar_groups(groups, &declarations, &[], 0).unwrap();
    assert_eq!(result[0][0].content, "1 2 3 4", "A: explicit content");
    assert_eq!(
        result[0][1].content, "1 2 3 4",
        "B: copied from A via follow"
    );
}

#[test]
fn tests_follow_with_key_override_uses_key_content() {
    let groups = vec![group(&["[A] 1 2 3 4", "[B] 5 6 7 0"])];
    let declarations = vec![
        decl("A", PartKind::Notes),
        decl_follow("B", PartKind::Notes, "A"),
    ];
    let (result, _slots, _, _refs) = desugar_groups(groups, &declarations, &[], 0).unwrap();
    assert_eq!(result[0][0].content, "1 2 3 4", "A: key-prefixed");
    assert_eq!(
        result[0][1].content, "5 6 7 0",
        "B: key override takes precedence over follow"
    );
}

#[test]
fn tests_follow_with_notes_lyrics_copies_both_slots_from_target() {
    let groups = vec![group(&["[A] 1 2 3 4", "[A] do re mi fa"])];
    let declarations = vec![
        decl("A", PartKind::NotesWithLyrics),
        decl_follow("B", PartKind::NotesWithLyrics, "A"),
    ];
    let (result, _slots, _, _refs) = desugar_groups(groups, &declarations, &[], 0).unwrap();
    assert_eq!(result[0][0].content, "1 2 3 4", "A notes");
    assert_eq!(result[0][1].content, "do re mi fa", "A lyrics");
    assert_eq!(result[0][2].content, "1 2 3 4", "B notes: copied from A");
    assert_eq!(
        result[0][3].content, "do re mi fa",
        "B lyrics: copied from A"
    );
}

#[test]
fn tests_follow_with_notes_key_override_copies_only_lyrics_from_target() {
    // B follows A. One [B] key line overrides notes only; lyrics still copied from A.
    let groups = vec![group(&["[A] 1 2 3 4", "[A] do re mi fa", "[B] 5 6 7 0"])];
    let declarations = vec![
        decl("A", PartKind::NotesWithLyrics),
        decl_follow("B", PartKind::NotesWithLyrics, "A"),
    ];
    let (result, _slots, _, _refs) = desugar_groups(groups, &declarations, &[], 0).unwrap();
    assert_eq!(result[0][0].content, "1 2 3 4", "A notes");
    assert_eq!(result[0][1].content, "do re mi fa", "A lyrics");
    assert_eq!(result[0][2].content, "5 6 7 0", "B notes: key override");
    assert_eq!(
        result[0][3].content, "do re mi fa",
        "B lyrics: copied from A via follow"
    );
}

#[test]
fn tests_follow_with_both_key_overrides_uses_both() {
    // B follows A. Two [B] key lines override both notes and lyrics.
    let groups = vec![group(&[
        "[A] 1 2 3 4",
        "[A] do re mi fa",
        "[B] 5 6 7 0",
        "[B] sol la si do",
    ])];
    let declarations = vec![
        decl("A", PartKind::NotesWithLyrics),
        decl_follow("B", PartKind::NotesWithLyrics, "A"),
    ];
    let (result, _slots, _, _refs) = desugar_groups(groups, &declarations, &[], 0).unwrap();
    assert_eq!(result[0][2].content, "5 6 7 0", "B notes: key override");
    assert_eq!(
        result[0][3].content, "sol la si do",
        "B lyrics: key override"
    );
}

#[test]
fn tests_follow_chain_resolves_correctly() {
    // C follows B, B follows A.
    let groups = vec![group(&["[A] 1 2 3 4"])];
    let declarations = vec![
        decl("A", PartKind::Notes),
        decl_follow("B", PartKind::Notes, "A"),
        decl_follow("C", PartKind::Notes, "B"),
    ];
    let (result, _slots, _, _refs) = desugar_groups(groups, &declarations, &[], 0).unwrap();
    assert_eq!(result[0][0].content, "1 2 3 4", "A: explicit");
    assert_eq!(result[0][1].content, "1 2 3 4", "B: copied from A");
    assert_eq!(
        result[0][2].content, "1 2 3 4",
        "C: copied from B (which has A content)"
    );
}

#[test]
fn tests_non_follow_non_first_part_not_mentioned_fills_with_rest() {
    let groups = vec![group(&["[A] 1 2 3 4"])];
    let declarations = vec![decl("A", PartKind::Notes), decl("B", PartKind::Notes)];
    let (result, _slots, _, _refs) = desugar_groups(groups, &declarations, &[], 0).unwrap();
    assert_eq!(result[0][0].content, "1 2 3 4", "A: explicit");
    assert_eq!(
        result[0][1].content, "0 0 0 0",
        "B: no follow target, not mentioned → rest for all 4 beats"
    );
}

#[test]
fn tests_non_follow_part_with_key_line_uses_key_content() {
    let groups = vec![group(&["[A] 1 2 3 4", "[B] 5 6 7 0"])];
    let declarations = vec![decl("A", PartKind::Notes), decl("B", PartKind::Notes)];
    let (result, _slots, _, _refs) = desugar_groups(groups, &declarations, &[], 0).unwrap();
    assert_eq!(result[0][0].content, "1 2 3 4", "A: key-prefixed");
    assert_eq!(result[0][1].content, "5 6 7 0", "B: key-based explicit");
}

#[test]
fn bare_line_attaches_to_nearest_preceding_key() {
    let groups = vec![group(&["[A] 1 2 3 4", "la la la la"])];
    let declarations = vec![decl("A", PartKind::Notes)];
    let (result, _slots, errors, _refs) = desugar_groups(groups, &declarations, &[], 0).unwrap();
    assert_eq!(result[0][0].content, "1 2 3 4");
    assert_eq!(result[0][1].content, "la la la la");
    assert!(errors[0].is_none());
}

#[test]
fn bare_line_attaches_to_the_nearer_of_two_keys() {
    let groups = vec![group(&["[A] 1 2 3 4", "[B] 5 6 7 0", "la la la la"])];
    let declarations = vec![decl("A", PartKind::Notes), decl("B", PartKind::Notes)];
    let (result, slots, _, _refs) = desugar_groups(groups, &declarations, &[], 0).unwrap();
    // A gets only its Notes role; B gets Notes + one attached Lyrics verse.
    assert_eq!(slots[0].len(), 3);
    assert_eq!(result[0][0].content, "1 2 3 4", "A notes");
    assert_eq!(result[0][1].content, "5 6 7 0", "B notes");
    assert_eq!(result[0][2].content, "la la la la", "B's attached verse");
}

#[test]
fn consecutive_bare_lines_become_successive_verses() {
    let groups = vec![group(&["[A] 1 2 3 4", "a b c d", "one two three four"])];
    let declarations = vec![decl("A", PartKind::Notes)];
    let (result, _slots, _, _refs) = desugar_groups(groups, &declarations, &[], 0).unwrap();
    assert_eq!(result[0][0].content, "1 2 3 4");
    assert_eq!(result[0][1].content, "a b c d", "verse 1");
    assert_eq!(result[0][2].content, "one two three four", "verse 2");
}

#[test]
fn bare_line_with_no_preceding_key_and_one_lyrics_part_is_standalone() {
    let groups = vec![group(&["a caption", "[A] 1 2 3 4"])];
    let declarations = vec![
        decl("Caption", PartKind::Lyrics),
        decl("A", PartKind::Notes),
    ];
    let (result, _slots, errors, _refs) = desugar_groups(groups, &declarations, &[], 0).unwrap();
    assert_eq!(result[0][0].content, "a caption", "attributed to Caption");
    assert_eq!(result[0][1].content, "1 2 3 4", "A notes");
    assert!(errors[0].is_none());
}

#[test]
fn bare_line_with_no_preceding_key_and_two_lyrics_parts_is_ambiguous() {
    // A trailing `[A]` line keeps `keyed` non-empty so the per-line error
    // set for the leading bare line isn't masked by the "no data lines at
    // all" fallback (see `bare_line_with_no_preceding_key_and_zero_lyrics_parts_keeps_missing_key_prefix_error`).
    let groups = vec![group(&["a caption", "[A] 1 2 3 4"])];
    let declarations = vec![
        decl("Caption1", PartKind::Lyrics),
        decl("Caption2", PartKind::Lyrics),
        decl("A", PartKind::Notes),
    ];
    let (_result, _slots, errors, _refs) = desugar_groups(groups, &declarations, &[], 0).unwrap();
    let err = errors[0]
        .as_ref()
        .expect("ambiguous standalone target should be a recoverable error");
    assert_eq!(
        err.kind,
        RecoverableErrorKind::PositionalLyricsAmbiguousStandaloneTarget
    );
}

#[test]
fn bare_line_with_no_preceding_key_and_zero_lyrics_parts_keeps_missing_key_prefix_error() {
    let groups = vec![group(&["a caption", "[A] 1 2 3 4"])];
    let declarations = vec![decl("A", PartKind::Notes)];
    let (_result, _slots, errors, _refs) = desugar_groups(groups, &declarations, &[], 0).unwrap();
    let err = errors[0]
        .as_ref()
        .expect("stray bare line with no lyrics-kind part should still error");
    assert_eq!(
        err.kind,
        RecoverableErrorKind::ScoreLineMissingKeyPrefix
    );
}

#[test]
fn positional_line_is_excluded_from_abbreviation_references() {
    let groups = vec![group(&["[A] 1 2 3 4", "la la la la"])];
    let declarations = vec![decl("A", PartKind::Notes)];
    let (_result, _slots, _errors, refs) = desugar_groups(groups, &declarations, &[], 0).unwrap();
    // Only the real `[A]` line contributes a rename-symbol reference; the
    // synthesized positional line has no literal abbreviation token in source.
    assert_eq!(refs.len(), 1);
}

#[test]
fn genuinely_duplicated_key_prefix_on_plain_notes_part_still_errors() {
    // Two real `[A]`-prefixed lines under a plain `notes` part (1 slot) is
    // still a capacity error, unlike a real line plus a positionally-attached
    // bare line (which is unlimited).
    let groups = vec![group(&["[A] 1 2 3 4", "[A] 5 6 7 0"])];
    let declarations = vec![decl("A", PartKind::Notes)];
    let (_result, _slots, errors, _refs) = desugar_groups(groups, &declarations, &[], 0).unwrap();
    assert!(
        errors[0].is_some(),
        "duplicate [A]-prefixed lines should still trip the fixed-schema capacity check"
    );
}

#[test]
fn desugar_tests_score_lines_are_passed_through_unchanged() {
    let groups = vec![group(&["[A] 1 2 3 4", "[A] hello"])];
    let declarations = vec![decl("A", PartKind::NotesWithLyrics)];
    let (result, _slots, _, _refs) = desugar_groups(groups, &declarations, &[], 0).unwrap();
    assert_eq!(result[0][0].content, "1 2 3 4");
    assert_eq!(result[0][1].content, "hello");
}

#[test]
fn desugar_tests_omitted_trailing_lyrics_without_precedent_fills_with_no_lyrics_silently() {
    let groups = vec![group(&["[A] 1 2 3 4"])];
    let declarations = vec![decl("A", PartKind::NotesWithLyrics)];
    let (result, _slots, errors, _refs) = desugar_groups(groups, &declarations, &[], 0).unwrap();
    assert_eq!(
        result[0][1].content, "_",
        "should fill in underscore placeholder"
    );
    assert!(
        errors[0].is_none(),
        "omitted lyrics with no precedent should not produce an error"
    );
}

#[test]
fn desugar_tests_omitted_trailing_notes_without_precedent_fills_with_rest_silently() {
    let groups = vec![group(&["[A] 1 - - -"])];
    let declarations = vec![decl("A", PartKind::Chords), decl("B", PartKind::Notes)];
    let (result, _slots, errors, _refs) = desugar_groups(groups, &declarations, &[], 0).unwrap();
    assert_eq!(
        result[0][1].content, "0 0 0 0",
        "should fill in quarter-rest placeholder for all 4 beats"
    );
    assert!(
        errors[0].is_none(),
        "omitted notes with no precedent should not produce an error"
    );
}

#[test]
fn desugar_tests_omitted_trailing_chord_without_precedent_fills_with_rest_silently() {
    let groups = vec![group(&["[A] 1 2 3 4"])];
    let declarations = vec![decl("A", PartKind::Notes), decl("B", PartKind::Chords)];
    let (result, _slots, errors, _refs) = desugar_groups(groups, &declarations, &[], 0).unwrap();
    assert_eq!(
        result[0][1].content, "0 0 0 0",
        "should fill in chord-rest placeholder for all 4 beats"
    );
    assert!(
        errors[0].is_none(),
        "omitted chord with no precedent should not produce an error"
    );
}

#[test]
fn desugar_tests_key_prefix_only_c_plays_others_fill_implicitly() {
    let groups = vec![group(&["[C] 5 6 7 0"])];
    let declarations = vec![
        decl("A", PartKind::Notes),
        decl("B", PartKind::Notes),
        decl("C", PartKind::Notes),
    ];
    let (result, _slots, errors, _refs) = desugar_groups(groups, &declarations, &[], 0).unwrap();
    assert_eq!(result[0][0].content, "0 0 0 0", "A: no precedent → rest");
    assert_eq!(result[0][1].content, "0 0 0 0", "B: no precedent → rest");
    assert_eq!(result[0][2].content, "5 6 7 0", "C: explicit content");
    assert!(errors[0].is_none());
}

#[test]
fn desugar_tests_key_prefix_unknown_abbreviation_is_recoverable_error() {
    let groups = vec![group(&["[Z] 1 2 3 4"])];
    let declarations = vec![decl("A", PartKind::Notes)];
    let (result, _slots, errors, _refs) = desugar_groups(groups, &declarations, &[], 0).unwrap();
    assert_eq!(result[0][0].content, "0 0 0 0");
    let err = errors[0]
        .as_ref()
        .expect("should produce a recoverable error");
    assert!(err.message().contains("[Z]"), "got: {}", err.message());
    assert!(
        err.message().contains("abbreviation"),
        "got: {}",
        err.message()
    );
    assert_eq!(err.span.start, 0, "span must start at `[`");
    assert_eq!(err.span.end, "[Z]".len(), "span must cover `[Z]`");
}

#[test]
fn desugar_tests_follow_with_no_key_override_copies_target_content() {
    let groups = vec![group(&["[A] 1 2 3 4"])];
    let declarations = vec![
        decl("A", PartKind::Notes),
        decl_follow("B", PartKind::Notes, "A"),
    ];
    let (result, _slots, _, _refs) = desugar_groups(groups, &declarations, &[], 0).unwrap();
    assert_eq!(result[0][0].content, "1 2 3 4", "A: explicit content");
    assert_eq!(
        result[0][1].content, "1 2 3 4",
        "B: copied from A via follow"
    );
}

#[test]
fn desugar_tests_follow_with_key_override_uses_key_content() {
    let groups = vec![group(&["[A] 1 2 3 4", "[B] 5 6 7 0"])];
    let declarations = vec![
        decl("A", PartKind::Notes),
        decl_follow("B", PartKind::Notes, "A"),
    ];
    let (result, _slots, _, _refs) = desugar_groups(groups, &declarations, &[], 0).unwrap();
    assert_eq!(result[0][0].content, "1 2 3 4", "A: key-prefixed");
    assert_eq!(
        result[0][1].content, "5 6 7 0",
        "B: key override takes precedence over follow"
    );
}

#[test]
fn desugar_tests_follow_with_notes_lyrics_copies_both_slots_from_target() {
    let groups = vec![group(&["[A] 1 2 3 4", "[A] do re mi fa"])];
    let declarations = vec![
        decl("A", PartKind::NotesWithLyrics),
        decl_follow("B", PartKind::NotesWithLyrics, "A"),
    ];
    let (result, _slots, _, _refs) = desugar_groups(groups, &declarations, &[], 0).unwrap();
    assert_eq!(result[0][0].content, "1 2 3 4", "A notes");
    assert_eq!(result[0][1].content, "do re mi fa", "A lyrics");
    assert_eq!(result[0][2].content, "1 2 3 4", "B notes: copied from A");
    assert_eq!(
        result[0][3].content, "do re mi fa",
        "B lyrics: copied from A"
    );
}

#[test]
fn desugar_tests_follow_with_notes_key_override_copies_only_lyrics_from_target() {
    // B follows A. One [B] key line overrides notes only; lyrics still copied from A.
    let groups = vec![group(&["[A] 1 2 3 4", "[A] do re mi fa", "[B] 5 6 7 0"])];
    let declarations = vec![
        decl("A", PartKind::NotesWithLyrics),
        decl_follow("B", PartKind::NotesWithLyrics, "A"),
    ];
    let (result, _slots, _, _refs) = desugar_groups(groups, &declarations, &[], 0).unwrap();
    assert_eq!(result[0][0].content, "1 2 3 4", "A notes");
    assert_eq!(result[0][1].content, "do re mi fa", "A lyrics");
    assert_eq!(result[0][2].content, "5 6 7 0", "B notes: key override");
    assert_eq!(
        result[0][3].content, "do re mi fa",
        "B lyrics: copied from A via follow"
    );
}

#[test]
fn desugar_tests_follow_with_both_key_overrides_uses_both() {
    // B follows A. Two [B] key lines override both notes and lyrics.
    let groups = vec![group(&[
        "[A] 1 2 3 4",
        "[A] do re mi fa",
        "[B] 5 6 7 0",
        "[B] sol la si do",
    ])];
    let declarations = vec![
        decl("A", PartKind::NotesWithLyrics),
        decl_follow("B", PartKind::NotesWithLyrics, "A"),
    ];
    let (result, _slots, _, _refs) = desugar_groups(groups, &declarations, &[], 0).unwrap();
    assert_eq!(result[0][2].content, "5 6 7 0", "B notes: key override");
    assert_eq!(
        result[0][3].content, "sol la si do",
        "B lyrics: key override"
    );
}

#[test]
fn desugar_tests_follow_chain_resolves_correctly() {
    // C follows B, B follows A.
    let groups = vec![group(&["[A] 1 2 3 4"])];
    let declarations = vec![
        decl("A", PartKind::Notes),
        decl_follow("B", PartKind::Notes, "A"),
        decl_follow("C", PartKind::Notes, "B"),
    ];
    let (result, _slots, _, _refs) = desugar_groups(groups, &declarations, &[], 0).unwrap();
    assert_eq!(result[0][0].content, "1 2 3 4", "A: explicit");
    assert_eq!(result[0][1].content, "1 2 3 4", "B: copied from A");
    assert_eq!(
        result[0][2].content, "1 2 3 4",
        "C: copied from B (which has A content)"
    );
}

#[test]
fn desugar_tests_non_follow_non_first_part_not_mentioned_fills_with_rest() {
    let groups = vec![group(&["[A] 1 2 3 4"])];
    let declarations = vec![decl("A", PartKind::Notes), decl("B", PartKind::Notes)];
    let (result, _slots, _, _refs) = desugar_groups(groups, &declarations, &[], 0).unwrap();
    assert_eq!(result[0][0].content, "1 2 3 4", "A: explicit");
    assert_eq!(
        result[0][1].content, "0 0 0 0",
        "B: no follow target, not mentioned → rest for all 4 beats"
    );
}

#[test]
fn desugar_tests_non_follow_part_with_key_line_uses_key_content() {
    let groups = vec![group(&["[A] 1 2 3 4", "[B] 5 6 7 0"])];
    let declarations = vec![decl("A", PartKind::Notes), decl("B", PartKind::Notes)];
    let (result, _slots, _, _refs) = desugar_groups(groups, &declarations, &[], 0).unwrap();
    assert_eq!(result[0][0].content, "1 2 3 4", "A: key-prefixed");
    assert_eq!(result[0][1].content, "5 6 7 0", "B: key-based explicit");
}

#[test]
fn desugar_tests_group_key_broadcasts_content_to_all_members() {
    let groups = vec![group(&["[s] 1 2 3 4"])];
    let declarations = vec![decl("s1", PartKind::Notes), decl("s2", PartKind::Notes)];
    let resolved = vec![resolved_group("s", &["s1", "s2"])];
    let (result, _slots, errors, _refs) = desugar_groups(groups, &declarations, &resolved, 0).unwrap();
    assert!(errors.iter().all(Option::is_none));
    assert_eq!(result[0][0].content, "1 2 3 4", "s1: from group broadcast");
    assert_eq!(result[0][1].content, "1 2 3 4", "s2: from group broadcast");
}

#[test]
fn desugar_tests_member_specific_line_overrides_group_broadcast() {
    let groups = vec![group(&["[s] 1 2 3 4", "[s2] 5 6 7 0"])];
    let declarations = vec![decl("s1", PartKind::Notes), decl("s2", PartKind::Notes)];
    let resolved = vec![resolved_group("s", &["s1", "s2"])];
    let (result, _slots, errors, _refs) = desugar_groups(groups, &declarations, &resolved, 0).unwrap();
    assert!(errors.iter().all(Option::is_none));
    assert_eq!(result[0][0].content, "1 2 3 4", "s1: from group broadcast");
    assert_eq!(
        result[0][1].content, "5 6 7 0",
        "s2: explicit line overrides group"
    );
}

#[test]
fn desugar_tests_group_broadcast_fills_multiple_slots_in_occurrence_order() {
    let groups = vec![group(&["[s] 1 2 3 4", "[s] la la la la"])];
    let declarations = vec![
        decl("s1", PartKind::NotesWithLyrics),
        decl("s2", PartKind::NotesWithLyrics),
    ];
    let resolved = vec![resolved_group("s", &["s1", "s2"])];
    let (result, _slots, errors, _refs) = desugar_groups(groups, &declarations, &resolved, 0).unwrap();
    assert!(errors.iter().all(Option::is_none));
    assert_eq!(result[0][0].content, "1 2 3 4", "s1 notes");
    assert_eq!(result[0][1].content, "la la la la", "s1 lyrics");
    assert_eq!(result[0][2].content, "1 2 3 4", "s2 notes");
    assert_eq!(result[0][3].content, "la la la la", "s2 lyrics");
}

#[test]
fn desugar_tests_group_key_unknown_to_desugar_is_reported_as_unknown_key() {
    // Not in `resolved` (e.g. it failed group validation) → treated like any unknown key.
    let groups = vec![group(&["[s] 1 2 3 4"])];
    let declarations = vec![decl("s1", PartKind::Notes)];
    let (_, _slots, errors, _refs) = desugar_groups(groups, &declarations, &[], 0).unwrap();
    assert!(errors[0].is_some(), "unresolved group key should error");
}

#[test]
fn desugar_tests_group_broadcast_lines_are_tagged_with_group_provenance() {
    let groups = vec![group(&["[s] 1 2 3 4", "[s2] 5 6 7 0"])];
    let declarations = vec![decl("s1", PartKind::Notes), decl("s2", PartKind::Notes)];
    let resolved = vec![resolved_group("s", &["s1", "s2"])];
    let (result, _slots, errors, _refs) = desugar_groups(groups, &declarations, &resolved, 0).unwrap();
    assert!(errors.iter().all(Option::is_none));
    assert_eq!(
        result[0][0].group,
        Some("s".to_string()),
        "s1: unmodified broadcast line carries the group's provenance"
    );
    assert_eq!(
        result[0][1].group, None,
        "s2: explicit override line carries no group provenance"
    );
}

#[test]
fn desugar_tests_own_direct_line_carries_no_group_provenance() {
    let groups = vec![group(&["[A] 1 2 3 4"])];
    let declarations = vec![decl("A", PartKind::Notes)];
    let (result, _slots, _, _refs) = desugar_groups(groups, &declarations, &[], 0).unwrap();
    assert_eq!(
        result[0][0].group, None,
        "a part's own direct line was never broadcast by a group"
    );
}

#[test]
fn tests_groups_group_key_broadcasts_content_to_all_members() {
    let groups = vec![group(&["[s] 1 2 3 4"])];
    let declarations = vec![decl("s1", PartKind::Notes), decl("s2", PartKind::Notes)];
    let resolved = vec![resolved_group("s", &["s1", "s2"])];
    let (result, _slots, errors, _refs) =
        desugar_groups(groups, &declarations, &resolved, 0).unwrap();
    assert!(errors.iter().all(Option::is_none));
    assert_eq!(result[0][0].content, "1 2 3 4", "s1: from group broadcast");
    assert_eq!(result[0][1].content, "1 2 3 4", "s2: from group broadcast");
}

#[test]
fn tests_groups_member_specific_line_overrides_group_broadcast() {
    let groups = vec![group(&["[s] 1 2 3 4", "[s2] 5 6 7 0"])];
    let declarations = vec![decl("s1", PartKind::Notes), decl("s2", PartKind::Notes)];
    let resolved = vec![resolved_group("s", &["s1", "s2"])];
    let (result, _slots, errors, _refs) =
        desugar_groups(groups, &declarations, &resolved, 0).unwrap();
    assert!(errors.iter().all(Option::is_none));
    assert_eq!(result[0][0].content, "1 2 3 4", "s1: from group broadcast");
    assert_eq!(
        result[0][1].content, "5 6 7 0",
        "s2: explicit line overrides group"
    );
}

#[test]
fn tests_groups_group_broadcast_fills_multiple_slots_in_occurrence_order() {
    let groups = vec![group(&["[s] 1 2 3 4", "[s] la la la la"])];
    let declarations = vec![
        decl("s1", PartKind::NotesWithLyrics),
        decl("s2", PartKind::NotesWithLyrics),
    ];
    let resolved = vec![resolved_group("s", &["s1", "s2"])];
    let (result, _slots, errors, _refs) =
        desugar_groups(groups, &declarations, &resolved, 0).unwrap();
    assert!(errors.iter().all(Option::is_none));
    assert_eq!(result[0][0].content, "1 2 3 4", "s1 notes");
    assert_eq!(result[0][1].content, "la la la la", "s1 lyrics");
    assert_eq!(result[0][2].content, "1 2 3 4", "s2 notes");
    assert_eq!(result[0][3].content, "la la la la", "s2 lyrics");
}

#[test]
fn tests_groups_group_key_unknown_to_desugar_is_reported_as_unknown_key() {
    // Not in `resolved` (e.g. it failed group validation) → treated like any unknown key.
    let groups = vec![group(&["[s] 1 2 3 4"])];
    let declarations = vec![decl("s1", PartKind::Notes)];
    let (_, _slots, errors, _refs) = desugar_groups(groups, &declarations, &[], 0).unwrap();
    assert!(errors[0].is_some(), "unresolved group key should error");
}

#[test]
fn tests_groups_group_broadcast_lines_are_tagged_with_group_provenance() {
    let groups = vec![group(&["[s] 1 2 3 4", "[s2] 5 6 7 0"])];
    let declarations = vec![decl("s1", PartKind::Notes), decl("s2", PartKind::Notes)];
    let resolved = vec![resolved_group("s", &["s1", "s2"])];
    let (result, _slots, errors, _refs) =
        desugar_groups(groups, &declarations, &resolved, 0).unwrap();
    assert!(errors.iter().all(Option::is_none));
    assert_eq!(
        result[0][0].group,
        Some("s".to_string()),
        "s1: unmodified broadcast line carries the group's provenance"
    );
    assert_eq!(
        result[0][1].group, None,
        "s2: explicit override line carries no group provenance"
    );
}

#[test]
fn tests_groups_own_direct_line_carries_no_group_provenance() {
    let groups = vec![group(&["[A] 1 2 3 4"])];
    let declarations = vec![decl("A", PartKind::Notes)];
    let (result, _slots, _, _refs) = desugar_groups(groups, &declarations, &[], 0).unwrap();
    assert_eq!(
        result[0][0].group, None,
        "a part's own direct line was never broadcast by a group"
    );
}

#[test]
fn a_group_implicitly_resting_as_a_whole_tags_its_members_with_group_provenance() {
    // Neither s1 nor s2 is mentioned by any key line (own or a `[s]` broadcast)
    // in this measure, so both implicit-fill to a rest — but since *every*
    // member of "s" rests here, that's equivalent to an implicit `[s]`
    // broadcast of silence, and should be tagged the same way an explicit one
    // would be, so a later merge of these two rows into one (e.g. because
    // they're both hidden as resting parts) can still label the row "s"
    // instead of "s1 s2" (see `grid_layout::layout_systems::resolve_label`).
    let groups = vec![group(&["[t] 1 2 3 4"])];
    let declarations = vec![
        decl("s1", PartKind::Notes),
        decl("s2", PartKind::Notes),
        decl("t", PartKind::Notes),
    ];
    let resolved = vec![resolved_group("s", &["s1", "s2"])];
    let (result, _slots, errors, _refs) =
        desugar_groups(groups, &declarations, &resolved, 0).unwrap();
    assert!(errors.iter().all(Option::is_none));
    assert_eq!(
        result[0][0].group,
        Some("s".to_string()),
        "s1: implicitly rests along with every other member of \"s\""
    );
    assert_eq!(
        result[0][1].group,
        Some("s".to_string()),
        "s2: implicitly rests along with every other member of \"s\""
    );
    assert_eq!(
        result[0][2].group, None,
        "t: its own direct line, not a group member"
    );
}

#[test]
fn a_group_only_partially_resting_does_not_tag_the_resting_member() {
    // s1 has its own direct line; s2 is left unmentioned and implicit-fills to
    // a rest. Since s1 (a member of "s") is *not* resting, "s" as a whole
    // isn't implicitly resting here, so s2's rest must not be tagged with
    // "s"'s provenance — that would incorrectly suggest the whole group
    // shared one broadcast when only one member is actually silent.
    let groups = vec![group(&["[s1] 1 2 3 4"])];
    let declarations = vec![decl("s1", PartKind::Notes), decl("s2", PartKind::Notes)];
    let resolved = vec![resolved_group("s", &["s1", "s2"])];
    let (result, _slots, errors, _refs) =
        desugar_groups(groups, &declarations, &resolved, 0).unwrap();
    assert!(errors.iter().all(Option::is_none));
    assert_eq!(result[0][1].content, "0 0 0 0", "s2: implicit rest");
    assert_eq!(
        result[0][1].group, None,
        "s2: rests alone, not as part of a wholly-resting group"
    );
}
