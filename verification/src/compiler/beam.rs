//! Beam groups: buffered short notes and rests of one part, flushed into
//! underline elements (one spanning the whole group, plus one per run of
//! double-underlined entries).

use super::types::{ColumnElement, ContentView, ElementContent, ElementView, elements_view};
use vstd::prelude::*;

verus! {

/// One buffered note or rest awaiting its beam group.
#[derive(Debug, Clone, Copy, PartialEq, Eq, Structural)]
pub struct BeamEntry {
    pub column: u32,
    pub underline_count: u32,
    pub duration: u32,
}

/// Every entry ends inside the `u32` column range.
pub open spec fn beam_fits(buf: Seq<BeamEntry>) -> bool {
    forall|i: int| 0 <= i < buf.len() ==> #[trigger] buf[i].column + buf[i].duration <= u32::MAX
}

pub open spec fn entry_end(e: BeamEntry) -> u32 {
    (e.column + e.duration) as u32
}

pub open spec fn underline_view(from: u32, to: u32, last_head: u32, level: u32) -> ElementView {
    ElementView {
        column: from,
        content: ContentView::Underline {
            from_column: from,
            to_column: to,
            last_head_column: last_head,
            level,
        },
        note_id: None,
    }
}

/// A run of double-underlined entries: (first column, end column, last column).
pub type Run = (u32, u32, u32);

/// The level-1 underlines closed so far, and the run still open, after the
/// first `n` entries.
pub open spec fn runs_upto(buf: Seq<BeamEntry>, n: int) -> (Seq<ElementView>, Option<Run>)
    decreases n,
{
    if n <= 0 {
        (Seq::empty(), None)
    } else {
        let (out, run) = runs_upto(buf, n - 1);
        let e = buf[n - 1];
        if e.underline_count >= 2 {
            let start = match run {
                Some(r) => r.0,
                None => e.column,
            };
            (out, Some((start, entry_end(e), e.column)))
        } else {
            match run {
                Some(r) => (out.push(underline_view(r.0, r.1, r.2, 1)), None),
                None => (out, None),
            }
        }
    }
}

/// The underlines of one beam group: a level-0 underline over the whole
/// group, then a level-1 underline over each maximal run of entries with two
/// or more underlines.
pub open spec fn underline_levels(buf: Seq<BeamEntry>) -> Seq<ElementView> {
    if buf.len() == 0 {
        Seq::empty()
    } else {
        let first = buf[0];
        let last = buf.last();
        let (out, run) = runs_upto(buf, buf.len() as int);
        let closed = match run {
            Some(r) => out.push(underline_view(r.0, r.1, r.2, 1)),
            None => out,
        };
        seq![underline_view(first.column, entry_end(last), last.column, 0)] + closed
    }
}

fn underline(from: u32, to: u32, last_head: u32, level: u32) -> (e: ColumnElement)
    ensures
        e@ == underline_view(from, to, last_head, level),
{
    ColumnElement {
        column: from,
        content: ElementContent::Underline {
            from_column: from,
            to_column: to,
            last_head_column: last_head,
            level,
        },
        note_id: None,
    }
}

fn compute_underline_levels(buffer: &Vec<BeamEntry>) -> (r: Vec<ColumnElement>)
    requires
        beam_fits(buffer@),
    ensures
        elements_view(r@) == underline_levels(buffer@),
{
    let mut result: Vec<ColumnElement> = Vec::new();
    if buffer.len() == 0 {
        assert(elements_view(result@) =~= Seq::<ElementView>::empty());
        return result;
    }
    let first = buffer[0];
    let last = buffer[buffer.len() - 1];
    result.push(underline(first.column, last.column + last.duration, last.column, 0));
    let ghost head = elements_view(result@);
    let mut run_start: Option<u32> = None;
    let mut run_end: u32 = 0;
    let mut run_last_head: u32 = 0;
    let mut i: usize = 0;
    while i < buffer.len()
        invariant
            i <= buffer@.len(),
            beam_fits(buffer@),
            head == seq![underline_view(first.column, entry_end(last), last.column, 0)],
            ({
                let (out, run) = runs_upto(buffer@, i as int);
                &&& elements_view(result@) == head + out
                &&& run == match run_start {
                    Some(s) => Some((s, run_end, run_last_head)),
                    None => None::<Run>,
                }
            }),
        decreases buffer@.len() - i,
    {
        let entry = buffer[i];
        assert(entry.column + entry.duration <= u32::MAX) by {
            assert(buffer@[i as int] == entry);
        }
        let ghost before = result@;
        if entry.underline_count >= 2 {
            if run_start.is_none() {
                run_start = Some(entry.column);
            }
            run_end = entry.column + entry.duration;
            run_last_head = entry.column;
        } else if let Some(start) = run_start {
            result.push(underline(start, run_end, run_last_head, 1));
            run_start = None;
            assert(elements_view(result@) =~= elements_view(before).push(
                underline_view(start, run_end, run_last_head, 1),
            ));
        }
        i = i + 1;
    }
    if let Some(start) = run_start {
        let ghost before = result@;
        result.push(underline(start, run_end, run_last_head, 1));
        assert(elements_view(result@) =~= elements_view(before).push(
            underline_view(start, run_end, run_last_head, 1),
        ));
    }
    proof {
        let (out, run) = runs_upto(buffer@, buffer@.len() as int);
        match run {
            Some(r) => {
                assert(head + out.push(underline_view(r.0, r.1, r.2, 1)) =~= (head + out).push(
                    underline_view(r.0, r.1, r.2, 1),
                ));
            },
            None => {},
        }
    }
    result
}

/// Elements and buffer after flushing: the group's underlines are appended
/// and the buffer emptied; an empty buffer changes nothing.
pub open spec fn flushed(elements: Seq<ElementView>, buf: Seq<BeamEntry>) -> (
    Seq<ElementView>,
    Seq<BeamEntry>,
) {
    if buf.len() == 0 {
        (elements, buf)
    } else {
        (elements + underline_levels(buf), Seq::empty())
    }
}

proof fn lemma_runs_underlines_only(buf: Seq<BeamEntry>, n: int)
    ensures
        forall|i: int| 0 <= i < runs_upto(buf, n).0.len() ==> (#[trigger] runs_upto(buf, n).0[i]).content is Underline,
    decreases n,
{
    if n > 0 {
        lemma_runs_underlines_only(buf, n - 1);
    }
}

/// Flushing a beam group adds underlines and nothing else.
pub proof fn lemma_flushed_adds_underlines_only(elements: Seq<ElementView>, buf: Seq<BeamEntry>)
    ensures
        flushed(elements, buf).0.len() >= elements.len(),
        flushed(elements, buf).0.subrange(0, elements.len() as int) == elements,
        forall|i: int|
            elements.len() <= i < flushed(elements, buf).0.len() ==> (#[trigger] flushed(elements, buf).0[i]).content is Underline,
{
    if buf.len() > 0 {
        lemma_runs_underlines_only(buf, buf.len() as int);
        let (out, run) = runs_upto(buf, buf.len() as int);
        let closed = match run {
            Some(r) => out.push(underline_view(r.0, r.1, r.2, 1)),
            None => out,
        };
        assert forall|i: int| 0 <= i < closed.len() implies (#[trigger] closed[i]).content is Underline by {
            if i < out.len() {
                assert(closed[i] == out[i]);
            }
        }
        let u = underline_levels(buf);
        assert forall|i: int| 0 <= i < u.len() implies (#[trigger] u[i]).content is Underline by {
            if i > 0 {
                assert(u[i] == closed[i - 1]);
            }
        }
        let f = flushed(elements, buf).0;
        assert(f == elements + u);
        assert forall|i: int| elements.len() <= i < f.len() implies (#[trigger] f[i]).content is Underline by {
            assert(f[i] == u[i - elements.len()]);
        }
        assert(f.subrange(0, elements.len() as int) =~= elements);
    } else {
        assert(elements.subrange(0, elements.len() as int) =~= elements);
    }
}

pub fn flush_beam_buffer(buffer: &mut Vec<BeamEntry>, elements: &mut Vec<ColumnElement>)
    requires
        beam_fits(old(buffer)@),
    ensures
        (elements_view(final(elements)@), final(buffer)@) == flushed(
            elements_view(old(elements)@),
            old(buffer)@,
        ),
{
    if buffer.len() == 0 {
        return;
    }
    let mut underlines = compute_underline_levels(buffer);
    let ghost e0 = elements@;
    let ghost u0 = underlines@;
    elements.append(&mut underlines);
    assert(elements_view(elements@) =~= elements_view(e0) + elements_view(u0));
    buffer.clear();
}

/// The entries follow one another: each starts no earlier than every
/// earlier one ends, and each lasts a positive duration.
pub open spec fn beam_ordered(buf: Seq<BeamEntry>) -> bool {
    &&& forall|i: int| 0 <= i < buf.len() ==> (#[trigger] buf[i]).duration > 0
    &&& forall|i: int, j: int| 0 <= i < j < buf.len() ==> entry_end(#[trigger] buf[i]) <= (#[trigger] buf[j]).column
}

/// No entry with fewer than two underlines starts inside `[from, to)`.
pub open spec fn covers_only_doubled(buf: Seq<BeamEntry>, from: u32, to: u32) -> bool {
    forall|i: int| 0 <= i < buf.len() && (#[trigger] buf[i]).underline_count < 2 ==> !(from <= buf[i].column < to)
}

/// Every level-1 underline among the elements spans only doubled entries.
pub open spec fn level_one_only_doubled(buf: Seq<BeamEntry>, out: Seq<ElementView>) -> bool {
    forall|k: int|
        0 <= k < out.len() ==> match (#[trigger] out[k]).content {
            ContentView::Underline { from_column, to_column, level, .. } => level == 1 ==> covers_only_doubled(
                buf,
                from_column,
                to_column,
            ),
            _ => true,
        }
}

proof fn lemma_runs_only_doubled(buf: Seq<BeamEntry>, n: int)
    requires
        0 <= n <= buf.len(),
        beam_fits(buf),
        beam_ordered(buf),
    ensures
        level_one_only_doubled(buf, runs_upto(buf, n).0),
        runs_upto(buf, n).1 matches Some(r) ==> {
            &&& n > 0
            &&& r.1 == entry_end(buf[n - 1])
            &&& forall|i: int| 0 <= i < n && (#[trigger] buf[i]).underline_count < 2 ==> entry_end(buf[i]) <= r.0
        },
    decreases n,
{
    if n > 0 {
        lemma_runs_only_doubled(buf, n - 1);
        let (out, run) = runs_upto(buf, n - 1);
        let e = buf[n - 1];
        if e.underline_count >= 2 {
            match run {
                Some(r) => {},
                None => {
                    assert forall|i: int| 0 <= i < n && (#[trigger] buf[i]).underline_count < 2 implies entry_end(buf[i])
                        <= e.column by {
                        assert(i < n - 1);
                    }
                },
            }
        } else {
            match run {
                Some(r) => {
                    let u = underline_view(r.0, r.1, r.2, 1);
                    assert(covers_only_doubled(buf, r.0, r.1)) by {
                        assert forall|i: int| 0 <= i < buf.len() && (#[trigger] buf[i]).underline_count < 2 implies !(r.0
                            <= buf[i].column < r.1) by {
                            if i < n - 1 {
                                assert(buf[i].column < entry_end(buf[i]));
                            } else if i > n - 1 {
                                assert(entry_end(buf[n - 2]) <= buf[i].column);
                            } else {
                                assert(entry_end(buf[n - 2]) <= buf[n - 1].column);
                            }
                        }
                    }
                    let out2 = out.push(u);
                    assert forall|k: int| 0 <= k < out2.len() implies match (#[trigger] out2[k]).content {
                        ContentView::Underline { from_column, to_column, level, .. } => level == 1
                            ==> covers_only_doubled(buf, from_column, to_column),
                        _ => true,
                    } by {
                        if k < out.len() {
                            assert(out2[k] == out[k]);
                        }
                    }
                },
                None => {},
            }
        }
    }
}

/// A beam group's level-1 underlines run only under entries with two or
/// more underlines: no entry with fewer starts inside one.
pub proof fn lemma_level_one_underlines_skip_single_entries(buf: Seq<BeamEntry>)
    requires
        beam_fits(buf),
        beam_ordered(buf),
    ensures
        level_one_only_doubled(buf, underline_levels(buf)),
{
    if buf.len() > 0 {
        lemma_runs_only_doubled(buf, buf.len() as int);
        let (out, run) = runs_upto(buf, buf.len() as int);
        let closed = match run {
            Some(r) => out.push(underline_view(r.0, r.1, r.2, 1)),
            None => out,
        };
        match run {
            Some(r) => {
                assert(covers_only_doubled(buf, r.0, r.1)) by {
                    assert forall|i: int| 0 <= i < buf.len() && (#[trigger] buf[i]).underline_count < 2 implies !(r.0
                        <= buf[i].column < r.1) by {
                        assert(buf[i].column < entry_end(buf[i]));
                    }
                }
            },
            None => {},
        }
        assert(level_one_only_doubled(buf, closed)) by {
            assert forall|k: int| 0 <= k < closed.len() implies match (#[trigger] closed[k]).content {
                ContentView::Underline { from_column, to_column, level, .. } => level == 1 ==> covers_only_doubled(
                    buf,
                    from_column,
                    to_column,
                ),
                _ => true,
            } by {
                if k < out.len() {
                    assert(closed[k] == out[k]);
                }
            }
        }
        let u = underline_levels(buf);
        let first = buf[0];
        let last = buf.last();
        assert forall|k: int| 0 <= k < u.len() implies match (#[trigger] u[k]).content {
            ContentView::Underline { from_column, to_column, level, .. } => level == 1 ==> covers_only_doubled(
                buf,
                from_column,
                to_column,
            ),
            _ => true,
        } by {
            if k > 0 {
                assert(u[k] == closed[k - 1]);
            } else {
                assert(u[0] == underline_view(first.column, entry_end(last), last.column, 0));
            }
        }
    }
}

} // verus!
