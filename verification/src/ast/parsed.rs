//! Parse-level vocabulary: part declarations, score-line roles, pitches,
//! chord qualities, lyric syllables and the parsed `# metadata` section.

use crate::error::Span;
use vstd::prelude::*;

verus! {

/// A General MIDI program number.
#[derive(Debug, Clone, Copy, PartialEq, Eq, Structural)]
pub struct Soundfont(pub u8);

impl Default for Soundfont {
    /// Program 52, Choir Aahs.
    fn default() -> (s: Self)
        ensures
            s.0 == 52,
    {
        Soundfont(52)
    }
}

/// What kind of content a declared part carries.
#[derive(Debug, Clone, Copy, PartialEq, Eq, Structural)]
pub enum PartKind {
    Chords,
    Notes,
    NotesWithLyrics,
    Lyrics,
    Percussion,
}

/// Which kind of score line fills one slot of a part's measure.
#[derive(Debug, Clone, Copy, PartialEq, Eq, Structural)]
pub enum ScoreLineRole {
    Chord,
    Notes,
    Lyrics,
}

/// One slot of a measure group: which declared part (by index) and which role.
#[derive(Debug, Clone, Copy, PartialEq, Eq, Structural)]
pub struct ScoreLineSlot {
    pub track_index: usize,
    pub role: ScoreLineRole,
}

/// One `# parts` declaration.
#[derive(Debug)]
pub struct PartDecl {
    pub abbreviation: String,
    /// Byte span of the abbreviation token on its declaration line.
    pub abbreviation_span: Span,
    pub display_name: String,
    pub kind: PartKind,
    /// `follow[X]`: the abbreviation of an earlier part whose content this
    /// part copies wherever it has no line of its own.
    pub follow_target: Option<String>,
    pub soundfont: Soundfont,
    pub volume: u8,
    /// MIDI-only octave shift applied to every note in this part.
    pub octave_offset: i8,
}

/// The static role list of a part kind, one role per score line it owns.
pub open spec fn kind_roles(kind: PartKind) -> Seq<ScoreLineRole> {
    match kind {
        PartKind::Chords => seq![ScoreLineRole::Chord],
        PartKind::Notes => seq![ScoreLineRole::Notes],
        PartKind::NotesWithLyrics => seq![ScoreLineRole::Notes, ScoreLineRole::Lyrics],
        PartKind::Lyrics => seq![ScoreLineRole::Lyrics],
        PartKind::Percussion => seq![ScoreLineRole::Notes],
    }
}

impl PartDecl {
    /// The score-line roles this part owns in a measure, in order.
    pub fn score_line_roles(&self) -> (r: &'static [ScoreLineRole])
        ensures
            r@ == kind_roles(self.kind),
    {
        match self.kind {
            PartKind::Chords => &[ScoreLineRole::Chord],
            PartKind::Notes => &[ScoreLineRole::Notes],
            PartKind::NotesWithLyrics => &[ScoreLineRole::Notes, ScoreLineRole::Lyrics],
            PartKind::Lyrics => &[ScoreLineRole::Lyrics],
            PartKind::Percussion => &[ScoreLineRole::Notes],
        }
    }
}

/// The slots of `decls`, each declaration's roles in order, declarations in order.
pub open spec fn flat_slots(decls: Seq<PartDecl>) -> Seq<ScoreLineSlot>
    decreases decls.len(),
{
    if decls.len() == 0 {
        Seq::empty()
    } else {
        flat_slots(decls.drop_last()) + kind_roles(decls.last().kind).map_values(
            |role: ScoreLineRole| ScoreLineSlot { track_index: (decls.len() - 1) as usize, role },
        )
    }
}

/// Every declaration's score-line slots, in declaration then role order.
pub fn flatten_score_line_slots(declarations: &[PartDecl]) -> (slots: Vec<ScoreLineSlot>)
    ensures
        slots@ == flat_slots(declarations@),
{
    let mut slots: Vec<ScoreLineSlot> = Vec::new();
    let n = declarations.len();
    for track_index in 0..n
        invariant
            n == declarations@.len(),
            slots@ == flat_slots(declarations@.take(track_index as int)),
    {
        let roles = declarations[track_index].score_line_roles();
        let ghost before = slots@;
        let ghost decls = declarations@.take(track_index + 1);
        assert(decls.drop_last() == declarations@.take(track_index as int));
        for j in 0..roles.len()
            invariant
                slots@ == before + roles@.take(j as int).map_values(
                    |role: ScoreLineRole| ScoreLineSlot { track_index, role },
                ),
        {
            slots.push(ScoreLineSlot { track_index, role: roles[j] });
            assert(roles@.take(j + 1).map_values(
                |role: ScoreLineRole| ScoreLineSlot { track_index, role },
            ) == roles@.take(j as int).map_values(
                |role: ScoreLineRole| ScoreLineSlot { track_index, role },
            ).push(ScoreLineSlot { track_index, role: roles@[j as int] }));
        }
        assert(roles@.take(roles@.len() as int) == roles@);
    }
    assert(declarations@.take(n as int) == declarations@);
    slots
}

/// One `[Abbrev]` key-prefix reference in the `# score` section, with the
/// span of the abbreviation text itself (excluding brackets and blanks).
#[derive(Debug)]
pub struct AbbreviationReference {
    pub abbreviation: String,
    pub span: Span,
}

/// A translation in points applied to a rendered element.
#[derive(Debug, Clone, Copy, PartialEq, Eq, Structural)]
pub struct Offset {
    pub x: i32,
    pub y: i32,
}

/// A jianpu scale degree, written `1` to `7`.
#[derive(Debug, Clone, Copy, PartialEq, Eq, Structural)]
pub enum JianPuPitch {
    One,
    Two,
    Three,
    Four,
    Five,
    Six,
    Seven,
}

/// The digit glyph a degree is written as.
pub open spec fn pitch_digit(p: JianPuPitch) -> char {
    match p {
        JianPuPitch::One => '1',
        JianPuPitch::Two => '2',
        JianPuPitch::Three => '3',
        JianPuPitch::Four => '4',
        JianPuPitch::Five => '5',
        JianPuPitch::Six => '6',
        JianPuPitch::Seven => '7',
    }
}

impl JianPuPitch {
    /// The jianpu digit glyph (`1`-`7`) this degree renders as.
    pub fn to_digit(&self) -> (c: char)
        ensures
            c == pitch_digit(*self),
    {
        match self {
            JianPuPitch::One => '1',
            JianPuPitch::Two => '2',
            JianPuPitch::Three => '3',
            JianPuPitch::Four => '4',
            JianPuPitch::Five => '5',
            JianPuPitch::Six => '6',
            JianPuPitch::Seven => '7',
        }
    }
}

#[derive(Debug, Clone, Copy, PartialEq, Eq, Structural)]
pub enum NoteName {
    A,
    B,
    C,
    D,
    E,
    F,
    G,
}

#[derive(Debug, Clone, Copy, PartialEq, Eq, Structural)]
pub enum Accidental {
    Flat,
    Sharp,
    Natural,
}

/// A concrete pitch: letter name, octave, accidental.
#[derive(Debug, Clone, Copy, PartialEq, Eq, Structural)]
pub struct Note {
    pub name: NoteName,
    pub octave: u8,
    pub accidental: Accidental,
}

/// A `key=` directive: the pitch that degree `1` stands for.
#[derive(Debug, Clone, Copy, PartialEq, Eq, Structural)]
pub struct KeyChange {
    pub note: Note,
}

#[derive(Debug, Clone, Copy, PartialEq, Eq, Structural)]
pub enum TriadQuality {
    Major,
    Minor,
    Augmented,
    Diminished,
    Sus2,
    Sus4,
}

#[derive(Debug, Clone, Copy, PartialEq, Eq, Structural)]
pub enum Extension {
    DominantSeventh,
    MajorSeventh,
}

/// A chord's slash-bass degree.
#[derive(Debug, Clone, Copy, PartialEq, Eq, Structural)]
pub struct BassDegree {
    pub degree: JianPuPitch,
    pub accidental: Accidental,
}

/// A parsed chord symbol.
#[derive(Debug, Clone, Copy, PartialEq, Eq, Structural)]
pub struct ParsedChordSymbol {
    pub degree: JianPuPitch,
    pub accidental: Accidental,
    pub triad: TriadQuality,
    pub extension: Option<Extension>,
    pub bass: Option<BassDegree>,
}

/// The ratio of a `{...}` tuplet bracket: `num` notes in the time of `den`.
#[derive(Debug, Clone, Copy, PartialEq, Eq, Structural)]
pub struct TupletInfo {
    pub num: u32,
    pub den: u32,
}

/// One lyric syllable.
#[derive(Debug)]
pub struct Syllable {
    pub text: String,
    /// True if `-` follows this syllable in the lyrics section.
    pub held: bool,
}

impl Clone for Syllable {
    fn clone(&self) -> (r: Self)
        ensures
            r.text@ == self.text@,
            r.held == self.held,
    {
        Syllable { text: self.text.clone(), held: self.held }
    }
}

/// A `font_family` text-style value.
#[derive(Debug, Clone, Copy, PartialEq, Eq, Structural)]
pub enum FontFamilyChoice {
    Serif,
    SansSerif,
    Monospace,
}

/// Parsed (all-optional) form of one `<kind> = { ... }` style object.
#[derive(Debug, Clone, Copy, PartialEq, Eq, Structural)]
pub struct TextStyle {
    pub font_size: Option<u32>,
    pub horizontal_padding_pt: Option<u32>,
    pub vertical_padding_pt: Option<u32>,
    pub bold: Option<bool>,
    pub italic: Option<bool>,
    pub underline: Option<bool>,
    pub font_family: Option<FontFamilyChoice>,
}

impl Default for TextStyle {
    /// Every component unset.
    fn default() -> (s: Self)
        ensures
            s.font_size is None,
            s.horizontal_padding_pt is None,
            s.vertical_padding_pt is None,
            s.bold is None,
            s.italic is None,
            s.underline is None,
            s.font_family is None,
    {
        TextStyle {
            font_size: None,
            horizontal_padding_pt: None,
            vertical_padding_pt: None,
            bold: None,
            italic: None,
            underline: None,
            font_family: None,
        }
    }
}

/// The parsed `# metadata` section; every key optional.
#[derive(Debug)]
pub struct ParsedMetadata {
    pub title: Option<String>,
    pub subtitle: Option<String>,
    pub author: Option<String>,
    pub row_height: Option<u32>,
    pub max_measures_per_system: Option<u32>,
    pub note_number_width: Option<u32>,
    pub parts_list_columns: Option<u32>,
    pub part_label_width_pt: Option<u32>,
    pub title_style: TextStyle,
    pub subtitle_style: TextStyle,
    pub author_style: TextStyle,
    pub sequence_style: TextStyle,
    pub part_legend_style: TextStyle,
    pub measure_number_style: TextStyle,
    pub section_label_style: TextStyle,
    pub page_number_style: TextStyle,
    pub part_label_style: TextStyle,
    pub lyrics_style: TextStyle,
    pub notes_style: TextStyle,
    pub chords_style: TextStyle,
    pub note_dash_style: TextStyle,
    pub merge_duplicate_measures_across_parts: Option<bool>,
    pub hide_resting_parts: Option<bool>,
    pub hide_system_dividers: Option<bool>,
    pub directive_row_offset: Option<Offset>,
}

} // verus!
