//! Text-style defaults and the fully-resolved `TextStyle` the grouped
//! `Metadata` holds for each rendered text kind.

use super::parsed::{Offset, TextStyle as ParsedTextStyle};
use vstd::prelude::*;

verus! {

/// Default `row_height` in points.
pub const DEFAULT_ROW_HEIGHT: u32 = 24;

/// Default `max_measures_per_system`.
pub const DEFAULT_MAX_MEASURES_PER_SYSTEM: u32 = 4;

/// Default `note_number_width` in points.
pub const DEFAULT_NOTE_NUMBER_WIDTH: u32 = 8;

/// Default `part_label_width_pt`.
pub const DEFAULT_PART_LABEL_WIDTH_PT: u32 = 40;

/// Default `parts_list_columns`.
pub const DEFAULT_PARTS_LIST_COLUMNS: u32 = 4;

/// Default `merge_duplicate_measures_across_parts`.
pub const DEFAULT_MERGE_DUPLICATE_MEASURES_ACROSS_PARTS: bool = true;

/// Default `hide_resting_parts`.
pub const DEFAULT_HIDE_RESTING_PARTS: bool = true;

/// Default `hide_system_dividers`.
pub const DEFAULT_HIDE_SYSTEM_DIVIDERS: bool = false;

/// Default `directive_row_offset`: no translation.
pub fn default_directive_row_offset() -> (o: Offset)
    ensures
        o.x == 0 && o.y == 0,
{
    Offset { x: 0, y: 0 }
}

/// Default `sequence.font_size` in points.
pub const DEFAULT_SEQUENCE_FONT_SIZE: u32 = 12;

/// Default `measure_number.font_size` in points.
pub const DEFAULT_MEASURE_NUMBER_FONT_SIZE: u32 = 10;

/// Default `section_label.font_size` in points.
pub const DEFAULT_SECTION_LABEL_FONT_SIZE: u32 = 12;

/// Default `part_label.font_size` in points.
pub const DEFAULT_PART_LABEL_FONT_SIZE: u32 = 12;

/// Default `lyrics.vertical_padding_pt`.
pub const DEFAULT_LYRIC_CLICK_TARGET_PADDING_PT: u32 = 12;

/// Default `notes.horizontal_padding_pt`.
pub const DEFAULT_NOTES_HORIZONTAL_PADDING_PT: u32 = 4;

/// Default `chords.horizontal_padding_pt`.
pub const DEFAULT_CHORDS_HORIZONTAL_PADDING_PT: u32 = 4;

/// Default `lyrics.horizontal_padding_pt`.
pub const DEFAULT_LYRICS_HORIZONTAL_PADDING_PT: u32 = 4;

/// Default `note_dash.horizontal_padding_pt`.
pub const DEFAULT_NOTE_DASH_HORIZONTAL_PADDING_PT: u32 = 4;

/// `row_height * num / den` rounded to the nearest integer (halves up),
/// capped at `u32::MAX`.
pub open spec fn scaled_rounded(row_height: u32, num: nat, den: nat) -> u32 {
    let v: nat = ((2 * (row_height as nat) * num + den) / (2 * den)) as nat;
    if v > u32::MAX {
        u32::MAX
    } else {
        v as u32
    }
}

fn scale_round(row_height: u32, num: u64, den: u64) -> (r: u32)
    requires
        1 <= num <= 4,
        1 <= den <= 5,
    ensures
        r == scaled_rounded(row_height, num as nat, den as nat),
{
    let r = row_height as u64;
    assert(2 * r * num <= 8 * 0xffff_ffff) by (nonlinear_arith)
        requires
            r <= 0xffff_ffff,
            num <= 4,
    ;
    let v = (2 * r * num + den) / (2 * den);
    if v > 0xffff_ffff {
        u32::MAX
    } else {
        v as u32
    }
}

/// Default `lyrics.font_size` in points: 60% of `row_height`, rounded.
pub fn default_lyrics_font_size(row_height: u32) -> (r: u32)
    ensures
        r == scaled_rounded(row_height, 3, 5),
{
    scale_round(row_height, 3, 5)
}

/// Default `title.font_size` in points: 150% of `row_height`, rounded.
pub fn default_title_font_size(row_height: u32) -> (r: u32)
    ensures
        r == scaled_rounded(row_height, 3, 2),
{
    scale_round(row_height, 3, 2)
}

/// Default `subtitle.font_size` in points: 80% of `row_height`, rounded.
pub fn default_subtitle_font_size(row_height: u32) -> (r: u32)
    ensures
        r == scaled_rounded(row_height, 4, 5),
{
    scale_round(row_height, 4, 5)
}

/// Default `author.font_size` in points: 60% of `row_height`, rounded.
pub fn default_author_font_size(row_height: u32) -> (r: u32)
    ensures
        r == scaled_rounded(row_height, 3, 5),
{
    scale_round(row_height, 3, 5)
}

/// Default `part_legend.font_size` in points: 60% of `row_height`, rounded.
pub fn default_part_legend_font_size(row_height: u32) -> (r: u32)
    ensures
        r == scaled_rounded(row_height, 3, 5),
{
    scale_round(row_height, 3, 5)
}

/// Default `page_number.font_size` in points: 60% of `row_height`, rounded.
pub fn default_page_number_font_size(row_height: u32) -> (r: u32)
    ensures
        r == scaled_rounded(row_height, 3, 5),
{
    scale_round(row_height, 3, 5)
}

/// Fully-resolved (all components defaulted) per-kind text style.
#[derive(Debug, Clone, Copy, PartialEq, Eq, Structural)]
pub struct TextStyle {
    pub font_size: u32,
    pub horizontal_padding_pt: u32,
    pub vertical_padding_pt: u32,
}

/// Fills each unset component of a parsed style object with its default.
pub fn resolve_text_style(
    parsed: ParsedTextStyle,
    default_font_size: u32,
    default_horizontal_padding_pt: u32,
    default_vertical_padding_pt: u32,
) -> (r: TextStyle)
    ensures
        r.font_size == (match parsed.font_size {
            Some(v) => v,
            None => default_font_size,
        }),
        r.horizontal_padding_pt == (match parsed.horizontal_padding_pt {
            Some(v) => v,
            None => default_horizontal_padding_pt,
        }),
        r.vertical_padding_pt == (match parsed.vertical_padding_pt {
            Some(v) => v,
            None => default_vertical_padding_pt,
        }),
{
    TextStyle {
        font_size: match parsed.font_size {
            Some(v) => v,
            None => default_font_size,
        },
        horizontal_padding_pt: match parsed.horizontal_padding_pt {
            Some(v) => v,
            None => default_horizontal_padding_pt,
        },
        vertical_padding_pt: match parsed.vertical_padding_pt {
            Some(v) => v,
            None => default_vertical_padding_pt,
        },
    }
}

} // verus!
