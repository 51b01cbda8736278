//! Key-addressed access to `ParsedMetadata`'s fields: one exhaustive match
//! per key family, so a caller holding a key reaches the matching field.

use super::metadata_keys::{MetadataFlagKey, MetadataNumberKey, MetadataTextKey, TextStyleKind};
use super::parsed::{ParsedMetadata, TextStyle};
use vstd::prelude::*;

verus! {

pub open spec fn metadata_style(m: ParsedMetadata, k: TextStyleKind) -> TextStyle {
    match k {
        TextStyleKind::Title => m.title_style,
        TextStyleKind::Subtitle => m.subtitle_style,
        TextStyleKind::Author => m.author_style,
        TextStyleKind::Sequence => m.sequence_style,
        TextStyleKind::PartLegend => m.part_legend_style,
        TextStyleKind::MeasureNumber => m.measure_number_style,
        TextStyleKind::SectionLabel => m.section_label_style,
        TextStyleKind::PartLabel => m.part_label_style,
        TextStyleKind::PageNumber => m.page_number_style,
        TextStyleKind::Lyrics => m.lyrics_style,
        TextStyleKind::Notes => m.notes_style,
        TextStyleKind::Chords => m.chords_style,
        TextStyleKind::NoteDash => m.note_dash_style,
    }
}
pub open spec fn metadata_with_style(m: ParsedMetadata, k: TextStyleKind, x: TextStyle) -> ParsedMetadata {
    match k {
        TextStyleKind::Title => ParsedMetadata { title_style: x, ..m },
        TextStyleKind::Subtitle => ParsedMetadata { subtitle_style: x, ..m },
        TextStyleKind::Author => ParsedMetadata { author_style: x, ..m },
        TextStyleKind::Sequence => ParsedMetadata { sequence_style: x, ..m },
        TextStyleKind::PartLegend => ParsedMetadata { part_legend_style: x, ..m },
        TextStyleKind::MeasureNumber => ParsedMetadata { measure_number_style: x, ..m },
        TextStyleKind::SectionLabel => ParsedMetadata { section_label_style: x, ..m },
        TextStyleKind::PartLabel => ParsedMetadata { part_label_style: x, ..m },
        TextStyleKind::PageNumber => ParsedMetadata { page_number_style: x, ..m },
        TextStyleKind::Lyrics => ParsedMetadata { lyrics_style: x, ..m },
        TextStyleKind::Notes => ParsedMetadata { notes_style: x, ..m },
        TextStyleKind::Chords => ParsedMetadata { chords_style: x, ..m },
        TextStyleKind::NoteDash => ParsedMetadata { note_dash_style: x, ..m },
    }
}
pub open spec fn metadata_number(m: ParsedMetadata, k: MetadataNumberKey) -> Option<u32> {
    match k {
        MetadataNumberKey::RowHeight => m.row_height,
        MetadataNumberKey::MaxMeasuresPerSystem => m.max_measures_per_system,
        MetadataNumberKey::NoteNumberWidth => m.note_number_width,
        MetadataNumberKey::PartsListColumns => m.parts_list_columns,
        MetadataNumberKey::PartLabelWidthPt => m.part_label_width_pt,
    }
}
pub open spec fn metadata_with_number(m: ParsedMetadata, k: MetadataNumberKey, x: Option<u32>) -> ParsedMetadata {
    match k {
        MetadataNumberKey::RowHeight => ParsedMetadata { row_height: x, ..m },
        MetadataNumberKey::MaxMeasuresPerSystem => ParsedMetadata { max_measures_per_system: x, ..m },
        MetadataNumberKey::NoteNumberWidth => ParsedMetadata { note_number_width: x, ..m },
        MetadataNumberKey::PartsListColumns => ParsedMetadata { parts_list_columns: x, ..m },
        MetadataNumberKey::PartLabelWidthPt => ParsedMetadata { part_label_width_pt: x, ..m },
    }
}
pub open spec fn metadata_flag(m: ParsedMetadata, k: MetadataFlagKey) -> Option<bool> {
    match k {
        MetadataFlagKey::MergeDuplicateMeasuresAcrossParts => m.merge_duplicate_measures_across_parts,
        MetadataFlagKey::HideRestingParts => m.hide_resting_parts,
        MetadataFlagKey::HideSystemDividers => m.hide_system_dividers,
    }
}
pub open spec fn metadata_with_flag(m: ParsedMetadata, k: MetadataFlagKey, x: Option<bool>) -> ParsedMetadata {
    match k {
        MetadataFlagKey::MergeDuplicateMeasuresAcrossParts => ParsedMetadata { merge_duplicate_measures_across_parts: x, ..m },
        MetadataFlagKey::HideRestingParts => ParsedMetadata { hide_resting_parts: x, ..m },
        MetadataFlagKey::HideSystemDividers => ParsedMetadata { hide_system_dividers: x, ..m },
    }
}
pub open spec fn metadata_text(m: ParsedMetadata, k: MetadataTextKey) -> Option<String> {
    match k {
        MetadataTextKey::Title => m.title,
        MetadataTextKey::Subtitle => m.subtitle,
        MetadataTextKey::Author => m.author,
    }
}
pub open spec fn metadata_with_text(m: ParsedMetadata, k: MetadataTextKey, x: Option<String>) -> ParsedMetadata {
    match k {
        MetadataTextKey::Title => ParsedMetadata { title: x, ..m },
        MetadataTextKey::Subtitle => ParsedMetadata { subtitle: x, ..m },
        MetadataTextKey::Author => ParsedMetadata { author: x, ..m },
    }
}
impl ParsedMetadata {
    pub fn style(&self, key: TextStyleKind) -> (r: &TextStyle)
        ensures
            *r == metadata_style(*self, key),
    {
        match key {
            TextStyleKind::Title => &self.title_style,
            TextStyleKind::Subtitle => &self.subtitle_style,
            TextStyleKind::Author => &self.author_style,
            TextStyleKind::Sequence => &self.sequence_style,
            TextStyleKind::PartLegend => &self.part_legend_style,
            TextStyleKind::MeasureNumber => &self.measure_number_style,
            TextStyleKind::SectionLabel => &self.section_label_style,
            TextStyleKind::PartLabel => &self.part_label_style,
            TextStyleKind::PageNumber => &self.page_number_style,
            TextStyleKind::Lyrics => &self.lyrics_style,
            TextStyleKind::Notes => &self.notes_style,
            TextStyleKind::Chords => &self.chords_style,
            TextStyleKind::NoteDash => &self.note_dash_style,
        }
    }
    pub fn style_mut(&mut self, key: TextStyleKind) -> (r: &mut TextStyle)
        ensures
            *r == metadata_style(*old(self), key),
            *final(self) == metadata_with_style(*old(self), key, *final(r)),
    {
        match key {
            TextStyleKind::Title => &mut self.title_style,
            TextStyleKind::Subtitle => &mut self.subtitle_style,
            TextStyleKind::Author => &mut self.author_style,
            TextStyleKind::Sequence => &mut self.sequence_style,
            TextStyleKind::PartLegend => &mut self.part_legend_style,
            TextStyleKind::MeasureNumber => &mut self.measure_number_style,
            TextStyleKind::SectionLabel => &mut self.section_label_style,
            TextStyleKind::PartLabel => &mut self.part_label_style,
            TextStyleKind::PageNumber => &mut self.page_number_style,
            TextStyleKind::Lyrics => &mut self.lyrics_style,
            TextStyleKind::Notes => &mut self.notes_style,
            TextStyleKind::Chords => &mut self.chords_style,
            TextStyleKind::NoteDash => &mut self.note_dash_style,
        }
    }
    pub fn number_mut(&mut self, key: MetadataNumberKey) -> (r: &mut Option<u32>)
        ensures
            *r == metadata_number(*old(self), key),
            *final(self) == metadata_with_number(*old(self), key, *final(r)),
    {
        match key {
            MetadataNumberKey::RowHeight => &mut self.row_height,
            MetadataNumberKey::MaxMeasuresPerSystem => &mut self.max_measures_per_system,
            MetadataNumberKey::NoteNumberWidth => &mut self.note_number_width,
            MetadataNumberKey::PartsListColumns => &mut self.parts_list_columns,
            MetadataNumberKey::PartLabelWidthPt => &mut self.part_label_width_pt,
        }
    }
    pub fn number(&self, key: MetadataNumberKey) -> (r: Option<u32>)
        ensures
            r == metadata_number(*self, key),
    {
        match key {
            MetadataNumberKey::RowHeight => self.row_height,
            MetadataNumberKey::MaxMeasuresPerSystem => self.max_measures_per_system,
            MetadataNumberKey::NoteNumberWidth => self.note_number_width,
            MetadataNumberKey::PartsListColumns => self.parts_list_columns,
            MetadataNumberKey::PartLabelWidthPt => self.part_label_width_pt,
        }
    }
    pub fn flag_mut(&mut self, key: MetadataFlagKey) -> (r: &mut Option<bool>)
        ensures
            *r == metadata_flag(*old(self), key),
            *final(self) == metadata_with_flag(*old(self), key, *final(r)),
    {
        match key {
            MetadataFlagKey::MergeDuplicateMeasuresAcrossParts => &mut self.merge_duplicate_measures_across_parts,
            MetadataFlagKey::HideRestingParts => &mut self.hide_resting_parts,
            MetadataFlagKey::HideSystemDividers => &mut self.hide_system_dividers,
        }
    }
    pub fn flag(&self, key: MetadataFlagKey) -> (r: Option<bool>)
        ensures
            r == metadata_flag(*self, key),
    {
        match key {
            MetadataFlagKey::MergeDuplicateMeasuresAcrossParts => self.merge_duplicate_measures_across_parts,
            MetadataFlagKey::HideRestingParts => self.hide_resting_parts,
            MetadataFlagKey::HideSystemDividers => self.hide_system_dividers,
        }
    }
    pub fn text_mut(&mut self, key: MetadataTextKey) -> (r: &mut Option<String>)
        ensures
            *r == metadata_text(*old(self), key),
            *final(self) == metadata_with_text(*old(self), key, *final(r)),
    {
        match key {
            MetadataTextKey::Title => &mut self.title,
            MetadataTextKey::Subtitle => &mut self.subtitle,
            MetadataTextKey::Author => &mut self.author,
        }
    }
    pub fn text(&self, key: MetadataTextKey) -> (r: Option<&str>)
        ensures
            r is None <==> metadata_text(*self, key) is None,
            r matches Some(t) ==> t@ == metadata_text(*self, key)->0@,
    {
        let field = match key {
            MetadataTextKey::Title => &self.title,
            MetadataTextKey::Subtitle => &self.subtitle,
            MetadataTextKey::Author => &self.author,
        };
        match field {
            Some(t) => Some(t.as_str()),
            None => None,
        }
    }
}

/// What is written through a key's `&mut` accessor is what that key reads
/// back afterwards, and every other key reads as before.
pub proof fn lemma_metadata_write_then_read(
    m: ParsedMetadata,
    style_key: TextStyleKind,
    other_style_key: TextStyleKind,
    style: TextStyle,
    number_key: MetadataNumberKey,
    other_number_key: MetadataNumberKey,
    number: Option<u32>,
    flag_key: MetadataFlagKey,
    other_flag_key: MetadataFlagKey,
    flag: Option<bool>,
    text_key: MetadataTextKey,
    other_text_key: MetadataTextKey,
    text: Option<String>,
)
    ensures
        metadata_style(metadata_with_style(m, style_key, style), style_key) == style,
        other_style_key != style_key ==> metadata_style(
            metadata_with_style(m, style_key, style),
            other_style_key,
        ) == metadata_style(m, other_style_key),
        metadata_number(metadata_with_number(m, number_key, number), number_key) == number,
        other_number_key != number_key ==> metadata_number(
            metadata_with_number(m, number_key, number),
            other_number_key,
        ) == metadata_number(m, other_number_key),
        metadata_flag(metadata_with_flag(m, flag_key, flag), flag_key) == flag,
        other_flag_key != flag_key ==> metadata_flag(
            metadata_with_flag(m, flag_key, flag),
            other_flag_key,
        ) == metadata_flag(m, other_flag_key),
        metadata_text(metadata_with_text(m, text_key, text), text_key) == text,
        other_text_key != text_key ==> metadata_text(
            metadata_with_text(m, text_key, text),
            other_text_key,
        ) == metadata_text(m, other_text_key),
{
}

} // verus!
