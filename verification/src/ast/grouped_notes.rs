//! Grouped note events: the per-measure notes, rests, chord notes and
//! percussion hits a part slice carries into compilation.

use super::parsed::{
    pitch_digit, Accidental, BassDegree, Extension, JianPuPitch, TriadQuality, TupletInfo,
};
use crate::error::Span;
use crate::text::push_char;
use vstd::prelude::*;

verus! {

#[derive(Debug, Clone, Copy, PartialEq, Eq, Structural)]
pub struct TimeSignature {
    pub numerator: u8,
    pub denominator: u8,
}

/// One event of a part's measure.
#[derive(Debug, Clone, Copy)]
pub enum NoteEvent {
    Note(GroupedNote),
    Rest(GroupedRest),
    Chord(GroupedChordNote),
    Percussion(GroupedPercussionHit),
}

#[derive(Debug, Clone, Copy)]
pub struct GroupedChordNote {
    pub degree: JianPuPitch,
    pub accidental: Accidental,
    pub triad: TriadQuality,
    pub extension: Option<Extension>,
    pub bass: Option<BassDegree>,
    pub duration: u32,
    pub slur: bool,
    pub tie_to_next_span: Option<Span>,
    pub event_span: Span,
    pub group_membership: u8,
    pub group_continuation: u8,
    pub dotted: bool,
    pub double_dotted: bool,
    pub slur_group_close_at_duration: Option<u32>,
    /// The innermost `{...}` tuplet bracket this chord note belonged to.
    pub tuplet: Option<TupletInfo>,
}

#[derive(Debug, Clone, Copy)]
pub struct GroupedNote {
    pub pitch: JianPuPitch,
    pub accidental: Accidental,
    pub octave: i8,
    /// Duration in quarter-beats, including any beats added by `-` extensions.
    pub duration: u32,
    /// True if this note is tied/slurred to the next note.
    pub slur: bool,
    /// Source span of the `~` suffix when this note is tied to the next note.
    pub tie_to_next_span: Option<Span>,
    /// Byte range of this note token in the score source.
    pub event_span: Span,
    /// Number of nested `(…)` groups this note belongs to.
    pub group_membership: u8,
    /// Number of those groups that continue past this note.
    pub group_continuation: u8,
    pub dotted: bool,
    pub double_dotted: bool,
    pub slur_group_close_at_duration: Option<u32>,
    pub tuplet: Option<TupletInfo>,
}

impl GroupedNote {
    pub fn tie_to_next(&self) -> (b: bool)
        ensures
            b == self.tie_to_next_span is Some,
    {
        self.tie_to_next_span.is_some()
    }
}

#[derive(Debug, Clone, Copy)]
pub struct GroupedPercussionHit {
    pub duration: u32,
    pub slur: bool,
    pub tie_to_next_span: Option<Span>,
    pub event_span: Span,
    pub group_membership: u8,
    pub group_continuation: u8,
    pub dotted: bool,
    pub double_dotted: bool,
    pub slur_group_close_at_duration: Option<u32>,
    pub tuplet: Option<TupletInfo>,
}

impl GroupedPercussionHit {
    pub fn tie_to_next(&self) -> (b: bool)
        ensures
            b == self.tie_to_next_span is Some,
    {
        self.tie_to_next_span.is_some()
    }
}

impl GroupedChordNote {
    pub fn tie_to_next(&self) -> (b: bool)
        ensures
            b == self.tie_to_next_span is Some,
    {
        self.tie_to_next_span.is_some()
    }
}

pub open spec fn accidental_text(a: Accidental) -> Seq<char> {
    match a {
        Accidental::Sharp => "♯"@,
        Accidental::Flat => "♭"@,
        Accidental::Natural => ""@,
    }
}

pub open spec fn triad_text(t: TriadQuality) -> Seq<char> {
    match t {
        TriadQuality::Major => ""@,
        TriadQuality::Minor => "m"@,
        TriadQuality::Diminished => "°"@,
        TriadQuality::Augmented => "⁺"@,
        TriadQuality::Sus2 => "sus2"@,
        TriadQuality::Sus4 => "sus4"@,
    }
}

pub open spec fn extension_text(e: Option<Extension>) -> Seq<char> {
    match e {
        Some(Extension::DominantSeventh) => "⁷"@,
        Some(Extension::MajorSeventh) => "△⁷"@,
        None => ""@,
    }
}

/// A chord symbol as displayed: degree, accidental, quality, extension,
/// then `/` and the bass degree when there is one.
pub open spec fn chord_symbol_text(
    degree: JianPuPitch,
    accidental: Accidental,
    triad: TriadQuality,
    extension: Option<Extension>,
    bass: Option<BassDegree>,
) -> Seq<char> {
    let head = seq![pitch_digit(degree)] + accidental_text(accidental) + triad_text(triad)
        + extension_text(extension);
    match bass {
        Some(b) => head + seq!['/', pitch_digit(b.degree)] + accidental_text(b.accidental),
        None => head,
    }
}

fn accidental_str(a: Accidental) -> (s: &'static str)
    ensures
        s@ == accidental_text(a),
{
    match a {
        Accidental::Sharp => "♯",
        Accidental::Flat => "♭",
        Accidental::Natural => "",
    }
}

impl GroupedChordNote {
    pub fn format_symbol(&self) -> (s: String)
        ensures
            s@ == chord_symbol_text(
                self.degree,
                self.accidental,
                self.triad,
                self.extension,
                self.bass,
            ),
    {
        let mut result = String::new();
        push_char(&mut result, self.degree.to_digit());
        result.append(accidental_str(self.accidental));
        let triad = match self.triad {
            TriadQuality::Major => "",
            TriadQuality::Minor => "m",
            TriadQuality::Diminished => "°",
            TriadQuality::Augmented => "⁺",
            TriadQuality::Sus2 => "sus2",
            TriadQuality::Sus4 => "sus4",
        };
        result.append(triad);
        let extension = match &self.extension {
            Some(Extension::DominantSeventh) => "⁷",
            Some(Extension::MajorSeventh) => "△⁷",
            None => "",
        };
        result.append(extension);
        assert(result@ == seq![pitch_digit(self.degree)] + accidental_text(self.accidental)
            + triad_text(self.triad) + extension_text(self.extension));
        if let Some(bass) = &self.bass {
            push_char(&mut result, '/');
            push_char(&mut result, bass.degree.to_digit());
            result.append(accidental_str(bass.accidental));
        }
        result
    }
}

#[derive(Debug, Clone, Copy)]
pub struct GroupedRest {
    pub duration: u32,
    pub dotted: bool,
    pub double_dotted: bool,
    pub group_membership: u8,
    pub group_continuation: u8,
    pub tuplet: Option<TupletInfo>,
    /// True when this rest was filled in for a part the measure never
    /// mentioned, rather than written by the composer.
    pub implicit_fill: bool,
}

} // verus!
