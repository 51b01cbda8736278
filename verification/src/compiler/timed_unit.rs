//! The timed units a part slice compiles the same way: notes, chord notes
//! and percussion hits.

use super::part_slice_unit::{CompiledUnit, UnitView};
use super::slur_chains::SlurKey;
use super::types::{ContentView, ElementContent};
use crate::ast::grouped::{GroupedChordNote, GroupedNote, GroupedPercussionHit};
use crate::ast::grouped_notes::chord_symbol_text;
use crate::ast::parsed::TupletInfo;
use vstd::prelude::*;

verus! {

pub trait TimedUnit {
    /// The unit as its compilation reads it.
    spec fn unit_spec(&self) -> UnitView;

    /// The unit is tied to the next one.
    spec fn tie_spec(&self) -> bool;

    fn duration(&self) -> (d: u32)
        ensures
            d == self.unit_spec().duration,
    ;

    fn dotted(&self) -> (b: bool)
        ensures
            b == self.unit_spec().dotted,
    ;

    fn double_dotted(&self) -> (b: bool)
        ensures
            b == self.unit_spec().double_dotted,
    ;

    fn group_membership(&self) -> (n: u8)
        ensures
            n == self.unit_spec().group_membership,
    ;

    fn group_continuation(&self) -> (n: u8)
        ensures
            n == self.unit_spec().group_continuation,
    ;

    fn slur_close_at(&self) -> (o: Option<u32>)
        ensures
            o == self.unit_spec().slur_close_at,
    ;

    fn slur_key(&self) -> (k: SlurKey)
        ensures
            k == self.unit_spec().slur_key,
    ;

    fn tuplet(&self) -> (t: Option<TupletInfo>)
        ensures
            t == self.unit_spec().tuplet,
    ;

    fn tie_to_next(&self) -> (b: bool)
        ensures
            b == self.tie_spec(),
    ;

    fn element_content(&self) -> (c: ElementContent)
        ensures
            c@ == self.unit_spec().head,
    ;
}

pub open spec fn note_unit(n: GroupedNote) -> UnitView {
    UnitView {
        duration: n.duration,
        dotted: n.dotted,
        double_dotted: n.double_dotted,
        group_membership: n.group_membership,
        group_continuation: n.group_continuation,
        slur_close_at: n.slur_group_close_at_duration,
        slur_key: SlurKey::Pitch(n.pitch),
        tuplet: n.tuplet,
        head: ContentView::NoteHead {
            pitch: n.pitch,
            accidental: n.accidental,
            octave: n.octave,
            dotted: n.dotted,
            double_dotted: n.double_dotted,
        },
    }
}

pub open spec fn chord_unit(c: GroupedChordNote) -> UnitView {
    UnitView {
        duration: c.duration,
        dotted: c.dotted,
        double_dotted: c.double_dotted,
        group_membership: c.group_membership,
        group_continuation: c.group_continuation,
        slur_close_at: c.slur_group_close_at_duration,
        slur_key: SlurKey::Chord {
            degree: c.degree,
            triad: c.triad,
            extension: c.extension,
            bass_degree: match c.bass {
                Some(b) => Some(b.degree),
                None => None,
            },
        },
        tuplet: c.tuplet,
        head: ContentView::ChordSymbol {
            text: chord_symbol_text(c.degree, c.accidental, c.triad, c.extension, c.bass),
            dotted: c.dotted,
            double_dotted: c.double_dotted,
        },
    }
}

pub open spec fn hit_unit(h: GroupedPercussionHit) -> UnitView {
    UnitView {
        duration: h.duration,
        dotted: h.dotted,
        double_dotted: h.double_dotted,
        group_membership: h.group_membership,
        group_continuation: h.group_continuation,
        slur_close_at: h.slur_group_close_at_duration,
        slur_key: SlurKey::Rest,
        tuplet: h.tuplet,
        head: ContentView::PercussionHit,
    }
}

impl TimedUnit for GroupedNote {
    open spec fn unit_spec(&self) -> UnitView {
        note_unit(*self)
    }

    open spec fn tie_spec(&self) -> bool {
        self.tie_to_next_span is Some
    }

    fn duration(&self) -> (d: u32) {
        self.duration
    }

    fn dotted(&self) -> (b: bool) {
        self.dotted
    }

    fn double_dotted(&self) -> (b: bool) {
        self.double_dotted
    }

    fn group_membership(&self) -> (n: u8) {
        self.group_membership
    }

    fn group_continuation(&self) -> (n: u8) {
        self.group_continuation
    }

    fn slur_close_at(&self) -> (o: Option<u32>) {
        self.slur_group_close_at_duration
    }

    fn slur_key(&self) -> (k: SlurKey) {
        SlurKey::Pitch(self.pitch)
    }

    fn tuplet(&self) -> (t: Option<TupletInfo>) {
        self.tuplet
    }

    fn tie_to_next(&self) -> (b: bool) {
        self.tie_to_next_span.is_some()
    }

    fn element_content(&self) -> (c: ElementContent) {
        ElementContent::NoteHead {
            pitch: self.pitch,
            accidental: self.accidental,
            octave: self.octave,
            dotted: self.dotted,
            double_dotted: self.double_dotted,
        }
    }
}

impl TimedUnit for GroupedChordNote {
    open spec fn unit_spec(&self) -> UnitView {
        chord_unit(*self)
    }

    open spec fn tie_spec(&self) -> bool {
        self.tie_to_next_span is Some
    }

    fn duration(&self) -> (d: u32) {
        self.duration
    }

    fn dotted(&self) -> (b: bool) {
        self.dotted
    }

    fn double_dotted(&self) -> (b: bool) {
        self.double_dotted
    }

    fn group_membership(&self) -> (n: u8) {
        self.group_membership
    }

    fn group_continuation(&self) -> (n: u8) {
        self.group_continuation
    }

    fn slur_close_at(&self) -> (o: Option<u32>) {
        self.slur_group_close_at_duration
    }

    fn slur_key(&self) -> (k: SlurKey) {
        SlurKey::from_chord(self)
    }

    fn tuplet(&self) -> (t: Option<TupletInfo>) {
        self.tuplet
    }

    fn tie_to_next(&self) -> (b: bool) {
        self.tie_to_next_span.is_some()
    }

    fn element_content(&self) -> (c: ElementContent) {
        ElementContent::ChordSymbol {
            text: self.format_symbol(),
            dotted: self.dotted,
            double_dotted: self.double_dotted,
        }
    }
}

impl TimedUnit for GroupedPercussionHit {
    open spec fn unit_spec(&self) -> UnitView {
        hit_unit(*self)
    }

    open spec fn tie_spec(&self) -> bool {
        self.tie_to_next_span is Some
    }

    fn duration(&self) -> (d: u32) {
        self.duration
    }

    fn dotted(&self) -> (b: bool) {
        self.dotted
    }

    fn double_dotted(&self) -> (b: bool) {
        self.double_dotted
    }

    fn group_membership(&self) -> (n: u8) {
        self.group_membership
    }

    fn group_continuation(&self) -> (n: u8) {
        self.group_continuation
    }

    fn slur_close_at(&self) -> (o: Option<u32>) {
        self.slur_group_close_at_duration
    }

    fn slur_key(&self) -> (k: SlurKey) {
        SlurKey::Rest
    }

    fn tuplet(&self) -> (t: Option<TupletInfo>) {
        self.tuplet
    }

    fn tie_to_next(&self) -> (b: bool) {
        self.tie_to_next_span.is_some()
    }

    fn element_content(&self) -> (c: ElementContent) {
        ElementContent::PercussionHit
    }
}

/// The compiled-unit record of a timed unit.
pub fn compiled_unit<T: TimedUnit>(unit: &T) -> (c: CompiledUnit)
    ensures
        c@ == unit.unit_spec(),
{
    CompiledUnit {
        duration: unit.duration(),
        dotted: unit.dotted(),
        double_dotted: unit.double_dotted(),
        group_membership: unit.group_membership(),
        group_continuation: unit.group_continuation(),
        slur_close_at: unit.slur_close_at(),
        slur_key: unit.slur_key(),
        tuplet: unit.tuplet(),
        head: unit.element_content(),
    }
}

} // verus!
