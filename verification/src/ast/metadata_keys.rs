//! The `# metadata` section's key vocabulary: text-style kinds and
//! components, numeric and yes/no keys, and their source keywords.

use super::parsed::{FontFamilyChoice, TextStyle};
use crate::text::{decimal, push_decimal};
use vstd::prelude::*;

verus! {

/// Every rendered text kind that takes a `<kind> = { ... }` style object.
#[derive(Debug, Clone, Copy, PartialEq, Eq, Structural)]
pub enum TextStyleKind {
    Title,
    Subtitle,
    Author,
    Sequence,
    PartLegend,
    MeasureNumber,
    SectionLabel,
    PartLabel,
    PageNumber,
    Lyrics,
    Notes,
    Chords,
    NoteDash,
}

/// The keyword `TextStyleKind` values are spelled as in source.
pub open spec fn keyword_of_text_style_kind(k: TextStyleKind) -> Seq<char> {
    match k {
        TextStyleKind::Title => "title"@,
        TextStyleKind::Subtitle => "subtitle"@,
        TextStyleKind::Author => "author"@,
        TextStyleKind::Sequence => "sequence"@,
        TextStyleKind::PartLegend => "part_legend"@,
        TextStyleKind::MeasureNumber => "measure_number"@,
        TextStyleKind::SectionLabel => "section_label"@,
        TextStyleKind::PartLabel => "part_label"@,
        TextStyleKind::PageNumber => "page_number"@,
        TextStyleKind::Lyrics => "lyrics"@,
        TextStyleKind::Notes => "notes"@,
        TextStyleKind::Chords => "chords"@,
        TextStyleKind::NoteDash => "note_dash"@,
    }
}

impl TextStyleKind {
    /// The keyword this value is spelled as in `.jianpu` source.
    pub fn keyword(self) -> (s: &'static str)
        ensures
            s@ == keyword_of_text_style_kind(self),
    {
        match self {
            TextStyleKind::Title => "title",
            TextStyleKind::Subtitle => "subtitle",
            TextStyleKind::Author => "author",
            TextStyleKind::Sequence => "sequence",
            TextStyleKind::PartLegend => "part_legend",
            TextStyleKind::MeasureNumber => "measure_number",
            TextStyleKind::SectionLabel => "section_label",
            TextStyleKind::PartLabel => "part_label",
            TextStyleKind::PageNumber => "page_number",
            TextStyleKind::Lyrics => "lyrics",
            TextStyleKind::Notes => "notes",
            TextStyleKind::Chords => "chords",
            TextStyleKind::NoteDash => "note_dash",
        }
    }
}
/// One component of a `<kind> = { component: value, ... }` style object.
#[derive(Debug, Clone, Copy, PartialEq, Eq, Structural)]
pub enum TextStyleComponent {
    FontSize,
    HorizontalPaddingPt,
    VerticalPaddingPt,
    Bold,
    Italic,
    Underline,
    FontFamily,
}

/// The keyword `TextStyleComponent` values are spelled as in source.
pub open spec fn keyword_of_text_style_component(k: TextStyleComponent) -> Seq<char> {
    match k {
        TextStyleComponent::FontSize => "font_size"@,
        TextStyleComponent::HorizontalPaddingPt => "horizontal_padding_pt"@,
        TextStyleComponent::VerticalPaddingPt => "vertical_padding_pt"@,
        TextStyleComponent::Bold => "bold"@,
        TextStyleComponent::Italic => "italic"@,
        TextStyleComponent::Underline => "underline"@,
        TextStyleComponent::FontFamily => "font_family"@,
    }
}

impl TextStyleComponent {
    /// The keyword this value is spelled as in `.jianpu` source.
    pub fn keyword(self) -> (s: &'static str)
        ensures
            s@ == keyword_of_text_style_component(self),
    {
        match self {
            TextStyleComponent::FontSize => "font_size",
            TextStyleComponent::HorizontalPaddingPt => "horizontal_padding_pt",
            TextStyleComponent::VerticalPaddingPt => "vertical_padding_pt",
            TextStyleComponent::Bold => "bold",
            TextStyleComponent::Italic => "italic",
            TextStyleComponent::Underline => "underline",
            TextStyleComponent::FontFamily => "font_family",
        }
    }
}
/// Positive-integer `# metadata` keys.
#[derive(Debug, Clone, Copy, PartialEq, Eq, Structural)]
pub enum MetadataNumberKey {
    RowHeight,
    MaxMeasuresPerSystem,
    NoteNumberWidth,
    PartsListColumns,
    PartLabelWidthPt,
}

/// The keyword `MetadataNumberKey` values are spelled as in source.
pub open spec fn keyword_of_metadata_number_key(k: MetadataNumberKey) -> Seq<char> {
    match k {
        MetadataNumberKey::RowHeight => "row_height"@,
        MetadataNumberKey::MaxMeasuresPerSystem => "max_measures_per_system"@,
        MetadataNumberKey::NoteNumberWidth => "note_number_width"@,
        MetadataNumberKey::PartsListColumns => "parts_list_columns"@,
        MetadataNumberKey::PartLabelWidthPt => "part_label_width_pt"@,
    }
}

impl MetadataNumberKey {
    /// The keyword this value is spelled as in `.jianpu` source.
    pub fn keyword(self) -> (s: &'static str)
        ensures
            s@ == keyword_of_metadata_number_key(self),
    {
        match self {
            MetadataNumberKey::RowHeight => "row_height",
            MetadataNumberKey::MaxMeasuresPerSystem => "max_measures_per_system",
            MetadataNumberKey::NoteNumberWidth => "note_number_width",
            MetadataNumberKey::PartsListColumns => "parts_list_columns",
            MetadataNumberKey::PartLabelWidthPt => "part_label_width_pt",
        }
    }
}
/// `yes`/`no` `# metadata` keys.
#[derive(Debug, Clone, Copy, PartialEq, Eq, Structural)]
pub enum MetadataFlagKey {
    MergeDuplicateMeasuresAcrossParts,
    HideRestingParts,
    HideSystemDividers,
}

/// The keyword `MetadataFlagKey` values are spelled as in source.
pub open spec fn keyword_of_metadata_flag_key(k: MetadataFlagKey) -> Seq<char> {
    match k {
        MetadataFlagKey::MergeDuplicateMeasuresAcrossParts => "merge_duplicate_measures_across_parts"@,
        MetadataFlagKey::HideRestingParts => "hide_resting_parts"@,
        MetadataFlagKey::HideSystemDividers => "hide_system_dividers"@,
    }
}

impl MetadataFlagKey {
    /// The keyword this value is spelled as in `.jianpu` source.
    pub fn keyword(self) -> (s: &'static str)
        ensures
            s@ == keyword_of_metadata_flag_key(self),
    {
        match self {
            MetadataFlagKey::MergeDuplicateMeasuresAcrossParts => "merge_duplicate_measures_across_parts",
            MetadataFlagKey::HideRestingParts => "hide_resting_parts",
            MetadataFlagKey::HideSystemDividers => "hide_system_dividers",
        }
    }
}
/// The spelling of a `yes`/`no` value.
#[derive(Debug, Clone, Copy, PartialEq, Eq, Structural)]
pub enum YesNo {
    Yes,
    No,
}

/// The keyword `YesNo` values are spelled as in source.
pub open spec fn keyword_of_yes_no(k: YesNo) -> Seq<char> {
    match k {
        YesNo::Yes => "yes"@,
        YesNo::No => "no"@,
    }
}

impl YesNo {
    /// The keyword this value is spelled as in `.jianpu` source.
    pub fn keyword(self) -> (s: &'static str)
        ensures
            s@ == keyword_of_yes_no(self),
    {
        match self {
            YesNo::Yes => "yes",
            YesNo::No => "no",
        }
    }
}
/// The keyword `FontFamilyChoice` values are spelled as in source.
pub open spec fn keyword_of_font_family_choice(k: FontFamilyChoice) -> Seq<char> {
    match k {
        FontFamilyChoice::Serif => "serif"@,
        FontFamilyChoice::SansSerif => "sans_serif"@,
        FontFamilyChoice::Monospace => "monospace"@,
    }
}

impl FontFamilyChoice {
    /// The keyword this value is spelled as in `.jianpu` source.
    pub fn keyword(self) -> (s: &'static str)
        ensures
            s@ == keyword_of_font_family_choice(self),
    {
        match self {
            FontFamilyChoice::Serif => "serif",
            FontFamilyChoice::SansSerif => "sans_serif",
            FontFamilyChoice::Monospace => "monospace",
        }
    }
}
impl YesNo {
    pub fn from_bool(value: bool) -> (r: Self)
        ensures
            r == (if value {
                YesNo::Yes
            } else {
                YesNo::No
            }),
    {
        if value {
            Self::Yes
        } else {
            Self::No
        }
    }

    pub fn to_bool(self) -> (b: bool)
        ensures
            b == (self == YesNo::Yes),
    {
        self == Self::Yes
    }
}

/// Reading back a flag spelled from a `bool` gives that `bool`.
pub proof fn lemma_yes_no_round_trip(value: bool)
    ensures
        (if value {
            YesNo::Yes
        } else {
            YesNo::No
        }) == YesNo::Yes <==> value,
{
}

/// The `directive_row_offset = x y` key.
pub const DIRECTIVE_ROW_OFFSET_KEY: &'static str = "directive_row_offset";

/// The text kinds whose key also takes a plain string (`title = "..."`).
#[derive(Debug, Clone, Copy, PartialEq, Eq, Structural)]
pub enum MetadataTextKey {
    Title,
    Subtitle,
    Author,
}

pub open spec fn text_key_style_kind(k: MetadataTextKey) -> TextStyleKind {
    match k {
        MetadataTextKey::Title => TextStyleKind::Title,
        MetadataTextKey::Subtitle => TextStyleKind::Subtitle,
        MetadataTextKey::Author => TextStyleKind::Author,
    }
}

pub open spec fn style_kind_text_key(kind: TextStyleKind) -> Option<MetadataTextKey> {
    match kind {
        TextStyleKind::Title => Some(MetadataTextKey::Title),
        TextStyleKind::Subtitle => Some(MetadataTextKey::Subtitle),
        TextStyleKind::Author => Some(MetadataTextKey::Author),
        _ => None,
    }
}

impl MetadataTextKey {
    pub fn style_kind(self) -> (k: TextStyleKind)
        ensures
            k == text_key_style_kind(self),
    {
        match self {
            Self::Title => TextStyleKind::Title,
            Self::Subtitle => TextStyleKind::Subtitle,
            Self::Author => TextStyleKind::Author,
        }
    }

    pub fn from_style_kind(kind: TextStyleKind) -> (r: Option<Self>)
        ensures
            r == style_kind_text_key(kind),
    {
        match kind {
            TextStyleKind::Title => Some(Self::Title),
            TextStyleKind::Subtitle => Some(Self::Subtitle),
            TextStyleKind::Author => Some(Self::Author),
            TextStyleKind::Sequence
            | TextStyleKind::PartLegend
            | TextStyleKind::MeasureNumber
            | TextStyleKind::SectionLabel
            | TextStyleKind::PartLabel
            | TextStyleKind::PageNumber
            | TextStyleKind::Lyrics
            | TextStyleKind::Notes
            | TextStyleKind::Chords
            | TextStyleKind::NoteDash => None,
        }
    }

    /// A text key's keyword is its style kind's keyword.
    pub fn keyword(self) -> (s: &'static str)
        ensures
            s@ == keyword_of_text_style_kind(text_key_style_kind(self)),
    {
        self.style_kind().keyword()
    }
}

/// A text key and its style kind map to each other, and only the three
/// text kinds have a text key.
pub proof fn lemma_text_key_style_kind_inverse(k: MetadataTextKey, kind: TextStyleKind)
    ensures
        style_kind_text_key(text_key_style_kind(k)) == Some(k),
        style_kind_text_key(kind) matches Some(t) ==> text_key_style_kind(t) == kind,
{
}

/// One style component together with its (possibly unset) value.
#[derive(Debug, Clone, Copy, PartialEq, Eq, Structural)]
pub enum TextStyleComponentValue {
    FontSize(Option<u32>),
    HorizontalPaddingPt(Option<u32>),
    VerticalPaddingPt(Option<u32>),
    Bold(Option<bool>),
    Italic(Option<bool>),
    Underline(Option<bool>),
    FontFamily(Option<FontFamilyChoice>),
}

pub open spec fn component_of(v: TextStyleComponentValue) -> TextStyleComponent {
    match v {
        TextStyleComponentValue::FontSize(_) => TextStyleComponent::FontSize,
        TextStyleComponentValue::HorizontalPaddingPt(_) => TextStyleComponent::HorizontalPaddingPt,
        TextStyleComponentValue::VerticalPaddingPt(_) => TextStyleComponent::VerticalPaddingPt,
        TextStyleComponentValue::Bold(_) => TextStyleComponent::Bold,
        TextStyleComponentValue::Italic(_) => TextStyleComponent::Italic,
        TextStyleComponentValue::Underline(_) => TextStyleComponent::Underline,
        TextStyleComponentValue::FontFamily(_) => TextStyleComponent::FontFamily,
    }
}

/// The source text of a `yes`/`no` flag.
pub open spec fn yes_no_text(flag: bool) -> Seq<char> {
    if flag {
        "yes"@
    } else {
        "no"@
    }
}

/// A component value as `.jianpu` source spells it, or `None` when unset.
pub open spec fn component_source_text(v: TextStyleComponentValue) -> Option<Seq<char>> {
    match v {
        TextStyleComponentValue::FontSize(n)
        | TextStyleComponentValue::HorizontalPaddingPt(n)
        | TextStyleComponentValue::VerticalPaddingPt(n) => match n {
            Some(n) => Some(decimal(n as nat)),
            None => None,
        },
        TextStyleComponentValue::Bold(f)
        | TextStyleComponentValue::Italic(f)
        | TextStyleComponentValue::Underline(f) => match f {
            Some(f) => Some(yes_no_text(f)),
            None => None,
        },
        TextStyleComponentValue::FontFamily(f) => match f {
            Some(f) => Some(keyword_of_font_family_choice(f)),
            None => None,
        },
    }
}

fn number_text(n: Option<u32>) -> (r: Option<String>)
    ensures
        r is None <==> n is None,
        r matches Some(t) ==> t@ == decimal(n->0 as nat),
{
    match n {
        Some(n) => {
            let mut s = String::new();
            push_decimal(&mut s, n as usize);
            Some(s)
        },
        None => None,
    }
}

fn flag_text(f: Option<bool>) -> (r: Option<String>)
    ensures
        r is None <==> f is None,
        r matches Some(t) ==> t@ == yes_no_text(f->0),
{
    match f {
        Some(f) => {
            proof {
                reveal_strlit("yes");
                reveal_strlit("no");
            }
            Some(String::from_str(YesNo::from_bool(f).keyword()))
        },
        None => None,
    }
}

impl TextStyleComponentValue {
    pub fn component(self) -> (c: TextStyleComponent)
        ensures
            c == component_of(self),
    {
        match self {
            Self::FontSize(_) => TextStyleComponent::FontSize,
            Self::HorizontalPaddingPt(_) => TextStyleComponent::HorizontalPaddingPt,
            Self::VerticalPaddingPt(_) => TextStyleComponent::VerticalPaddingPt,
            Self::Bold(_) => TextStyleComponent::Bold,
            Self::Italic(_) => TextStyleComponent::Italic,
            Self::Underline(_) => TextStyleComponent::Underline,
            Self::FontFamily(_) => TextStyleComponent::FontFamily,
        }
    }

    /// The value as `.jianpu` source spells it, or `None` when unset.
    pub fn source_text(self) -> (r: Option<String>)
        ensures
            r is None <==> component_source_text(self) is None,
            r matches Some(t) ==> component_source_text(self) == Some(t@),
    {
        match self {
            Self::FontSize(value)
            | Self::HorizontalPaddingPt(value)
            | Self::VerticalPaddingPt(value) => number_text(value),
            Self::Bold(value) | Self::Italic(value) | Self::Underline(value) => flag_text(value),
            Self::FontFamily(value) => match value {
                Some(family) => Some(String::from_str(family.keyword())),
                None => None,
            },
        }
    }
}

/// The value a style holds for one component.
pub open spec fn style_component_value(
    s: TextStyle,
    c: TextStyleComponent,
) -> TextStyleComponentValue {
    match c {
        TextStyleComponent::FontSize => TextStyleComponentValue::FontSize(s.font_size),
        TextStyleComponent::HorizontalPaddingPt => TextStyleComponentValue::HorizontalPaddingPt(
            s.horizontal_padding_pt,
        ),
        TextStyleComponent::VerticalPaddingPt => TextStyleComponentValue::VerticalPaddingPt(
            s.vertical_padding_pt,
        ),
        TextStyleComponent::Bold => TextStyleComponentValue::Bold(s.bold),
        TextStyleComponent::Italic => TextStyleComponentValue::Italic(s.italic),
        TextStyleComponent::Underline => TextStyleComponentValue::Underline(s.underline),
        TextStyleComponent::FontFamily => TextStyleComponentValue::FontFamily(s.font_family),
    }
}

/// `s` with one component replaced by `v`.
pub open spec fn style_with(s: TextStyle, v: TextStyleComponentValue) -> TextStyle {
    match v {
        TextStyleComponentValue::FontSize(x) => TextStyle { font_size: x, ..s },
        TextStyleComponentValue::HorizontalPaddingPt(x) => TextStyle { horizontal_padding_pt: x, ..s },
        TextStyleComponentValue::VerticalPaddingPt(x) => TextStyle { vertical_padding_pt: x, ..s },
        TextStyleComponentValue::Bold(x) => TextStyle { bold: x, ..s },
        TextStyleComponentValue::Italic(x) => TextStyle { italic: x, ..s },
        TextStyleComponentValue::Underline(x) => TextStyle { underline: x, ..s },
        TextStyleComponentValue::FontFamily(x) => TextStyle { font_family: x, ..s },
    }
}

impl TextStyle {
    pub fn component_value(&self, component: TextStyleComponent) -> (v: TextStyleComponentValue)
        ensures
            v == style_component_value(*self, component),
    {
        match component {
            TextStyleComponent::FontSize => TextStyleComponentValue::FontSize(self.font_size),
            TextStyleComponent::HorizontalPaddingPt => {
                TextStyleComponentValue::HorizontalPaddingPt(self.horizontal_padding_pt)
            },
            TextStyleComponent::VerticalPaddingPt => {
                TextStyleComponentValue::VerticalPaddingPt(self.vertical_padding_pt)
            },
            TextStyleComponent::Bold => TextStyleComponentValue::Bold(self.bold),
            TextStyleComponent::Italic => TextStyleComponentValue::Italic(self.italic),
            TextStyleComponent::Underline => TextStyleComponentValue::Underline(self.underline),
            TextStyleComponent::FontFamily => TextStyleComponentValue::FontFamily(self.font_family),
        }
    }

    pub fn set_component(&mut self, value: TextStyleComponentValue)
        ensures
            *final(self) == style_with(*old(self), value),
    {
        match value {
            TextStyleComponentValue::FontSize(v) => self.font_size = v,
            TextStyleComponentValue::HorizontalPaddingPt(v) => self.horizontal_padding_pt = v,
            TextStyleComponentValue::VerticalPaddingPt(v) => self.vertical_padding_pt = v,
            TextStyleComponentValue::Bold(v) => self.bold = v,
            TextStyleComponentValue::Italic(v) => self.italic = v,
            TextStyleComponentValue::Underline(v) => self.underline = v,
            TextStyleComponentValue::FontFamily(v) => self.font_family = v,
        }
    }
}

/// Reading a component right after setting it gives the value set, and
/// every other component is unchanged.
pub proof fn lemma_set_then_read_component(
    s: TextStyle,
    v: TextStyleComponentValue,
    other: TextStyleComponent,
)
    ensures
        style_component_value(style_with(s, v), component_of(v)) == v,
        other != component_of(v) ==> style_component_value(style_with(s, v), other)
            == style_component_value(s, other),
{
}

} // verus!
