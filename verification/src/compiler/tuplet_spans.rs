//! Tuplet brackets: contiguous runs of events tagged with the same tuplet
//! ratio within one part slice, each becoming one `TupletSpan`.

use super::types::{TupletSpan, TupletSpanView, tuplets_view};
use crate::ast::parsed::TupletInfo;
use crate::text::{decimal, push_decimal};
use vstd::prelude::*;

verus! {

/// The tuplet run being accumulated: its first and latest tagged columns.
#[derive(Debug, Clone, Copy, PartialEq, Eq, Structural)]
pub struct PendingTupletSpan {
    pub from_column: u32,
    pub to_column: u32,
    pub tuplet: TupletInfo,
}

pub struct TupletState {
    pub current: Option<PendingTupletSpan>,
    pub spans: Seq<TupletSpanView>,
}

pub open spec fn span_of(p: PendingTupletSpan, measure: usize, part: usize) -> TupletSpanView {
    TupletSpanView {
        part_index: part,
        measure_index: measure,
        from_column: p.from_column,
        to_column: p.to_column,
        label: decimal(p.tuplet.num as nat),
    }
}

/// Closing the run being accumulated, if any, into a span.
pub open spec fn tuplet_flushed(s: TupletState, measure: usize, part: usize) -> TupletState {
    match s.current {
        Some(p) => TupletState { current: None, spans: s.spans.push(span_of(p, measure, part)) },
        None => s,
    }
}

/// An event at `column` with tag `tuplet`: an untagged event closes the run;
/// a tag equal to the run's extends it; any other tag closes the run and
/// starts a new one at `column`.
pub open spec fn tuplet_tagged(
    s: TupletState,
    measure: usize,
    part: usize,
    column: u32,
    tuplet: Option<TupletInfo>,
) -> TupletState {
    match tuplet {
        None => tuplet_flushed(s, measure, part),
        Some(t) => match s.current {
            Some(p) if p.tuplet == t => TupletState {
                current: Some(PendingTupletSpan { to_column: column, ..p }),
                spans: s.spans,
            },
            _ => TupletState {
                current: Some(PendingTupletSpan { from_column: column, to_column: column, tuplet: t }),
                spans: tuplet_flushed(s, measure, part).spans,
            },
        },
    }
}

fn tuplet_label(num: u32) -> (s: String)
    ensures
        s@ == decimal(num as nat),
{
    let mut s = String::new();
    proof {
        assert(s@ == Seq::<char>::empty());
    }
    push_decimal(&mut s, num as usize);
    assert(s@ =~= decimal(num as nat));
    s
}

pub fn flush(
    current: &mut Option<PendingTupletSpan>,
    tuplet_spans: &mut Vec<TupletSpan>,
    measure_index: usize,
    part_index: usize,
)
    ensures
        (TupletState { current: *final(current), spans: tuplets_view(final(tuplet_spans)@) })
            == tuplet_flushed(
            TupletState { current: *old(current), spans: tuplets_view(old(tuplet_spans)@) },
            measure_index,
            part_index,
        ),
{
    if let Some(pending) = *current {
        let ghost before = tuplet_spans@;
        tuplet_spans.push(
            TupletSpan {
                part_index,
                measure_index,
                from_column: pending.from_column,
                to_column: pending.to_column,
                label: tuplet_label(pending.tuplet.num),
            },
        );
        *current = None;
        assert(tuplets_view(tuplet_spans@) =~= tuplets_view(before).push(
            span_of(pending, measure_index, part_index),
        ));
    }
}

pub fn record_tuplet_tag(
    current: &mut Option<PendingTupletSpan>,
    tuplet_spans: &mut Vec<TupletSpan>,
    measure_index: usize,
    part_index: usize,
    column: u32,
    tuplet: Option<TupletInfo>,
)
    ensures
        (TupletState { current: *final(current), spans: tuplets_view(final(tuplet_spans)@) })
            == tuplet_tagged(
            TupletState { current: *old(current), spans: tuplets_view(old(tuplet_spans)@) },
            measure_index,
            part_index,
            column,
            tuplet,
        ),
{
    match tuplet {
        None => flush(current, tuplet_spans, measure_index, part_index),
        Some(t) => {
            let extends = match *current {
                Some(p) => p.tuplet == t,
                None => false,
            };
            if extends {
                let p = current.unwrap();
                *current = Some(PendingTupletSpan { to_column: column, ..p });
            } else {
                flush(current, tuplet_spans, measure_index, part_index);
                *current = Some(PendingTupletSpan { from_column: column, to_column: column, tuplet: t });
            }
        },
    }
}

/// Every tuplet span lies in measure `mi`.
pub open spec fn tuplets_at(spans: Seq<TupletSpanView>, mi: int) -> bool {
    forall|k: int| 0 <= k < spans.len() ==> (#[trigger] spans[k]).measure_index == mi
}

/// Tagging and flushing in measure `mi` only add spans in `mi`.
pub proof fn lemma_tuplets_stay_in_measure(
    s: TupletState,
    measure: usize,
    part: usize,
    column: u32,
    tuplet: Option<TupletInfo>,
)
    requires
        tuplets_at(s.spans, measure as int),
    ensures
        tuplets_at(tuplet_flushed(s, measure, part).spans, measure as int),
        tuplets_at(tuplet_tagged(s, measure, part, column, tuplet).spans, measure as int),
{
    let f = tuplet_flushed(s, measure, part).spans;
    assert forall|k: int| 0 <= k < f.len() implies (#[trigger] f[k]).measure_index == measure by {
        if k < s.spans.len() {
            assert(f[k] == s.spans[k]);
        }
    }
}

} // verus!
