//! The grouped score: per-measure, per-part slices with resolved directives
//! and metadata, as compilation consumes them.

pub use super::grouped_notes::{
    GroupedChordNote, GroupedNote, GroupedPercussionHit, GroupedRest, NoteEvent, TimeSignature,
};
pub use super::grouped_text_style::TextStyle;
use super::parsed::{KeyChange, Offset, PartKind, Soundfont, Syllable};
use crate::error::{Diagnostic, RecoverableError, Span, Warning};
use vstd::prelude::*;

verus! {

/// Fully-resolved score metadata.
#[derive(Debug)]
pub struct Metadata {
    pub title: Option<String>,
    pub subtitle: Option<String>,
    pub author: Option<String>,
    /// Row height in points.
    pub row_height: u32,
    /// Maximum number of measures per system line before wrapping.
    pub max_measures_per_system: u32,
    /// Estimated rendered width of a single digit note number in points.
    pub note_number_width: u32,
    /// Number of columns in the parts list header.
    pub parts_list_columns: u32,
    /// Fixed width in points of the part-label column of each system row.
    pub part_label_width_pt: u32,
    pub title_style: TextStyle,
    pub subtitle_style: TextStyle,
    pub author_style: TextStyle,
    pub sequence: TextStyle,
    pub part_legend: TextStyle,
    pub measure_number: TextStyle,
    pub section_label: TextStyle,
    pub part_label: TextStyle,
    pub page_number: TextStyle,
    pub lyrics: TextStyle,
    pub notes: TextStyle,
    pub chords: TextStyle,
    pub note_dash: TextStyle,
    /// Score-wide default for `merge_duplicate_measures_across_parts=`.
    pub merge_duplicate_measures_across_parts: bool,
    /// Score-wide default for `hide_resting_parts=`.
    pub hide_resting_parts: bool,
    /// When `true`, the divider line drawn between systems is omitted.
    pub hide_system_dividers: bool,
    /// Translation in points applied to every rendered directive row.
    pub directive_row_offset: Offset,
}

/// One part's note events for one measure.
#[derive(Debug)]
pub struct Notes {
    pub events: Vec<NoteEvent>,
}

/// One verse's syllables for a single measure.
#[derive(Debug)]
pub struct Lyrics {
    pub syllables: Vec<Syllable>,
}

/// One part's content for one measure.
#[derive(Debug)]
pub struct PartSlice {
    pub name: Option<String>,
    pub kind: PartKind,
    pub soundfont: Soundfont,
    pub volume: u8,
    pub octave_offset: i8,
    pub notes: Notes,
    /// One entry per verse, in order; empty when the part has no lyrics here.
    pub lyrics: Vec<Lyrics>,
    /// True when the source measure had at least one error; the compiler then
    /// drops incoming cross-measure tie/slur arcs.
    pub has_error: bool,
    /// Factor every duration in `notes` was multiplied by for tuplet rescaling;
    /// `1` when the measure has no tuplets.
    pub resolution_multiplier: u32,
    /// Quarter-beat width of one beam group: `4` for simple meters, `6` for
    /// compound meters.
    pub beat_group_size: u32,
}

/// One measure across every part, with its resolved directives.
#[derive(Debug)]
pub struct MultiPartMeasure {
    pub time_signature: Option<TimeSignature>,
    pub bpm: Option<u32>,
    pub key: Option<KeyChange>,
    pub label: Option<String>,
    /// `merge_duplicate_measures_across_parts=` in effect on this measure.
    pub merge_duplicate_measures_across_parts: bool,
    /// `hide_resting_parts=` in effect on this measure.
    pub hide_resting_parts: bool,
    /// `break` on this measure's directive line: a new system starts here.
    pub system_break: bool,
    pub parts: Vec<PartRow>,
    /// Byte range of this measure's events in the score source.
    pub source_span: Span,
    /// Diagnostics collected during grouping for this measure.
    pub diagnostics: Vec<Diagnostic>,
}

#[derive(Debug)]
pub enum PartRow {
    Timed(PartSlice),
}

pub open spec fn row_slice(row: PartRow) -> PartSlice {
    match row {
        PartRow::Timed(s) => s,
    }
}

impl PartRow {
    pub fn name(&self) -> (r: Option<&String>)
        ensures
            r == match row_slice(*self).name {
                Some(n) => Some(&n),
                None => None,
            },
    {
        match &self.slice().name {
            Some(n) => Some(n),
            None => None,
        }
    }

    pub fn slice(&self) -> (s: &PartSlice)
        ensures
            *s == row_slice(*self),
    {
        match self {
            PartRow::Timed(s) => s,
        }
    }

    pub fn slice_mut(&mut self) -> (s: &mut PartSlice)
        ensures
            *s == row_slice(*old(self)),
            *final(self) == PartRow::Timed(*final(s)),
    {
        match self {
            PartRow::Timed(s) => s,
        }
    }
}

/// The whole grouped score.
#[derive(Debug)]
pub struct Score {
    pub metadata: Metadata,
    pub measures: Vec<MultiPartMeasure>,
    /// Document-level diagnostics, not tied to any measure.
    pub document_diagnostics: Vec<Diagnostic>,
    /// Resolved playback order from a `# sequence` section.
    pub sequence: Option<Vec<SequenceSpan>>,
}

/// A labeled section's resolved, inclusive measure range.
#[derive(Debug)]
pub struct SequenceSpan {
    pub label: String,
    pub start: usize,
    pub end: usize,
    /// Part abbreviations omitted from this occurrence's playback.
    pub omit_parts: Vec<String>,
    pub part_filter_display: Option<PartFilterDisplay>,
}

/// Whether a `# sequence` suffix lists parts to omit or the only parts kept.
#[derive(Debug, Clone, Copy, PartialEq, Eq, Structural)]
pub enum PartFilterKind {
    Omit,
    Only,
}

/// A `# sequence` entry's `(...)` suffix, as written.
#[derive(Debug)]
pub struct PartFilterDisplay {
    pub kind: PartFilterKind,
    pub parts: Vec<String>,
}

/// One part across every measure, before combination.
pub enum GroupedTrack {
    Timed(GroupedPart),
}

pub open spec fn track_part(t: GroupedTrack) -> GroupedPart {
    match t {
        GroupedTrack::Timed(p) => p,
    }
}

impl GroupedTrack {
    pub fn measure_count(&self) -> (n: usize)
        ensures
            n == track_part(*self).measures@.len(),
    {
        match self {
            GroupedTrack::Timed(part) => part.measures.len(),
        }
    }

    pub fn track_name(&self) -> (n: &Option<String>)
        ensures
            *n == track_part(*self).name,
    {
        match self {
            GroupedTrack::Timed(part) => &part.name,
        }
    }
}

/// One measure's directives.
pub struct MeasureDirectives {
    pub time_signature: Option<TimeSignature>,
    pub bpm: Option<u32>,
    pub key: Option<KeyChange>,
    pub label: Option<String>,
    pub merge_duplicate_measures_across_parts: bool,
    pub hide_resting_parts: bool,
    pub system_break: bool,
}

/// The grouper's output before the parts are combined measure by measure.
pub struct GroupedScore {
    pub measure_directives: Vec<MeasureDirectives>,
    pub parts: Vec<GroupedTrack>,
    pub per_measure_parse_errors: Vec<Option<RecoverableError>>,
}

/// One part's grouped content for one measure.
pub struct GroupedMeasure {
    pub notes: Notes,
    pub source_span: Span,
    /// Syllables paired to this measure's notes, one entry per verse.
    pub paired_lyrics: Vec<Vec<Syllable>>,
    /// Lyrics underflow/overflow warnings, one per verse that has one.
    pub lyrics_error: Vec<Warning>,
    /// Beat overflow warning (notes trimmed), if any.
    pub beat_overflow_error: Option<Warning>,
    /// Dotted-eighth errors and half-bar-boundary warnings.
    pub dotted_eighth_errors: Vec<Diagnostic>,
    /// Chord parse diagnostics.
    pub chord_errors: Vec<Diagnostic>,
    /// Unexpected-character error on the notes line, if any.
    pub lex_error: Option<RecoverableError>,
    /// Malformed lyrics line error, if any.
    pub lyrics_parse_error: Option<RecoverableError>,
    /// `-` at the start of a measure with no preceding event, if any.
    pub extension_no_preceding_event_error: Option<RecoverableError>,
    pub resolution_multiplier: u32,
    pub beat_group_size: u32,
}

pub struct GroupedPart {
    pub name: Option<String>,
    pub kind: PartKind,
    pub soundfont: Soundfont,
    pub volume: u8,
    pub octave_offset: i8,
    pub measures: Vec<GroupedMeasure>,
}

} // verus!
