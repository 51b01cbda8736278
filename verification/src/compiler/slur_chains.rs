//! Slur chains: the notes of each open `(...)` nesting depth of one part,
//! closed into `SlurSpan`s, with openings carried across measure boundaries.

use super::types::{ArcKind, SlurSpan};
use crate::ast::grouped::GroupedChordNote;
use crate::ast::parsed::{Extension, JianPuPitch, TriadQuality};
use vstd::prelude::*;

verus! {

/// Where a slur still open at a measure's end began.
#[derive(Debug, Clone, Copy, PartialEq, Eq, Structural)]
pub struct PendingSlurOpen {
    pub measure_index: usize,
    pub from_column: u32,
}

/// What a chain node was: a pitch, a chord, or a rest/percussion hit.
#[derive(Debug, Clone, Copy, PartialEq, Eq, Structural)]
pub enum SlurKey {
    Pitch(JianPuPitch),
    Chord {
        degree: JianPuPitch,
        triad: TriadQuality,
        extension: Option<Extension>,
        bass_degree: Option<JianPuPitch>,
    },
    Rest,
}

impl SlurKey {
    pub fn from_chord(chord: &GroupedChordNote) -> (k: SlurKey)
        ensures
            k == (SlurKey::Chord {
                degree: chord.degree,
                triad: chord.triad,
                extension: chord.extension,
                bass_degree: match chord.bass {
                    Some(b) => Some(b.degree),
                    None => None,
                },
            }),
    {
        SlurKey::Chord {
            degree: chord.degree,
            triad: chord.triad,
            extension: chord.extension,
            bass_degree: match &chord.bass {
                Some(b) => Some(b.degree),
                None => None,
            },
        }
    }
}

/// Per-part state carried across measure boundaries.
pub struct PartCrossState {
    pub pending_slur_opens: Vec<Option<PendingSlurOpen>>,
    pub prev_tie: bool,
    pub prev_tie_column: Option<u32>,
    pub prev_tie_measure: Option<usize>,
    pub prev_tie_note_id: Option<usize>,
    pub next_note_id: usize,
}

/// The value of a part's cross-measure state.
pub struct CrossModel {
    pub opens: Seq<Option<PendingSlurOpen>>,
    pub prev_tie: bool,
    pub prev_tie_column: Option<u32>,
    pub prev_tie_measure: Option<usize>,
    pub prev_tie_note_id: Option<usize>,
    pub next_note_id: usize,
}

impl View for PartCrossState {
    type V = CrossModel;

    open spec fn view(&self) -> CrossModel {
        CrossModel {
            opens: self.pending_slur_opens@,
            prev_tie: self.prev_tie,
            prev_tie_column: self.prev_tie_column,
            prev_tie_measure: self.prev_tie_measure,
            prev_tie_note_id: self.prev_tie_note_id,
            next_note_id: self.next_note_id,
        }
    }
}

/// A part's state before its first measure.
pub open spec fn initial_cross() -> CrossModel {
    CrossModel {
        opens: Seq::empty(),
        prev_tie: false,
        prev_tie_column: None,
        prev_tie_measure: None,
        prev_tie_note_id: None,
        next_note_id: 0,
    }
}

impl PartCrossState {
    pub fn new() -> (s: Self)
        ensures
            s@ == initial_cross(),
    {
        PartCrossState {
            pending_slur_opens: Vec::new(),
            prev_tie: false,
            prev_tie_column: None,
            prev_tie_measure: None,
            prev_tie_note_id: None,
            next_note_id: 0,
        }
    }

    pub fn clone_pending_opens(&self) -> (v: Vec<Option<PendingSlurOpen>>)
        ensures
            v@ == self.pending_slur_opens@,
    {
        let mut v: Vec<Option<PendingSlurOpen>> = Vec::new();
        for i in 0..self.pending_slur_opens.len()
            invariant
                v@ == self.pending_slur_opens@.take(i as int),
        {
            v.push(self.pending_slur_opens[i]);
            assert(v@ =~= self.pending_slur_opens@.take(i + 1));
        }
        assert(self.pending_slur_opens@.take(self.pending_slur_opens@.len() as int)
            =~= self.pending_slur_opens@);
        v
    }
}

pub type Chain = Seq<(u32, SlurKey)>;

pub open spec fn chains_view(v: Seq<Vec<(u32, SlurKey)>>) -> Seq<Chain> {
    v.map_values(|c: Vec<(u32, SlurKey)>| c@)
}

/// Chains, pending openings and emitted spans of one part.
pub struct ChainState {
    pub chains: Seq<Chain>,
    pub opens: Seq<Option<PendingSlurOpen>>,
    pub slurs: Seq<SlurSpan>,
}

pub open spec fn slur(part: usize, fm: usize, fc: u32, tm: usize, tc: u32) -> SlurSpan {
    SlurSpan {
        kind: ArcKind::Slur,
        part_index: part,
        from_measure: fm,
        from_column: fc,
        to_measure: tm,
        to_column: tc,
    }
}

/// Closing nesting depth `depth` at column `col`: a chain of two or more
/// notes becomes one slur from its opening (carried over from an earlier
/// measure, or its first note) to its last note; a lone note closes a slur
/// carried over from an earlier measure, if any. The depth's opening is
/// consumed and its chain emptied.
pub open spec fn close_depth(s: ChainState, depth: int, measure: usize, part: usize, col: u32) -> ChainState {
    let chain = s.chains[depth];
    let has_slot = depth < s.opens.len();
    let open = if has_slot {
        s.opens[depth]
    } else {
        None
    };
    let taken = if has_slot {
        s.opens.update(depth, None)
    } else {
        s.opens
    };
    if chain.len() > 1 {
        let (fm, fc) = match open {
            Some(o) => (o.measure_index, o.from_column),
            None => (measure, chain[0].0),
        };
        ChainState {
            chains: s.chains.update(depth, Seq::empty()),
            opens: taken,
            slurs: s.slurs.push(slur(part, fm, fc, measure, chain.last().0)),
        }
    } else if chain.len() == 1 {
        ChainState {
            chains: s.chains.update(depth, Seq::empty()),
            opens: taken,
            slurs: match open {
                Some(o) => s.slurs.push(slur(part, o.measure_index, o.from_column, measure, col)),
                None => s.slurs,
            },
        }
    } else {
        ChainState { chains: s.chains.update(depth, Seq::empty()), opens: s.opens, slurs: s.slurs }
    }
}

/// Closing every depth in `[from, to)`, in order.
pub open spec fn close_range(s: ChainState, from: int, to: int, measure: usize, part: usize, col: u32) -> ChainState
    decreases to - from,
{
    if from >= to {
        s
    } else {
        close_range(close_depth(s, from, measure, part, col), from + 1, to, measure, part, col)
    }
}

pub open spec fn padded_chains(chains: Seq<Chain>, n: int) -> Seq<Chain> {
    Seq::new(
        if chains.len() >= n {
            chains.len()
        } else {
            n as nat
        },
        |i: int| if i < chains.len() { chains[i] } else { Seq::<(u32, SlurKey)>::empty() },
    )
}

/// Openings padded with `None` to at least `n` depths.
pub open spec fn padded_opens(opens: Seq<Option<PendingSlurOpen>>, n: int) -> Seq<Option<PendingSlurOpen>> {
    Seq::new(
        if opens.len() >= n {
            opens.len()
        } else {
            n as nat
        },
        |i: int| if i < opens.len() { opens[i] } else { None },
    )
}

fn pad_opens(opens: &mut Vec<Option<PendingSlurOpen>>, n: usize)
    ensures
        final(opens)@ == padded_opens(old(opens)@, n as int),
{
    let ghost o0 = opens@;
    while opens.len() < n
        invariant
            opens@ == padded_opens(o0, opens@.len() as int),
            o0.len() <= opens@.len(),
            opens@.len() == o0.len() || opens@.len() <= n,
        decreases n - opens@.len(),
    {
        opens.push(None);
        assert(opens@ =~= padded_opens(o0, opens@.len() as int));
    }
    assert(opens@ =~= padded_opens(o0, n as int));
}

pub open spec fn pushed_chains(chains: Seq<Chain>, n: int, node: (u32, SlurKey)) -> Seq<Chain> {
    Seq::new(chains.len(), |i: int| if i < n { chains[i].push(node) } else { chains[i] })
}

/// A note at `col` belonging to `membership` nested groups, `continuation` of
/// which go on past it: it joins the chains of its groups, and the groups it
/// ends (depths `continuation..membership`) are closed.
pub open spec fn extended(
    s: ChainState,
    membership: u8,
    continuation: u8,
    col: u32,
    key: SlurKey,
    measure: usize,
    part: usize,
) -> ChainState {
    let chains = pushed_chains(padded_chains(s.chains, membership as int), membership as int, (col, key));
    close_range(
        ChainState { chains, opens: s.opens, slurs: s.slurs },
        continuation as int,
        membership as int,
        measure,
        part,
        col,
    )
}

proof fn lemma_close_range_len(s: ChainState, from: int, to: int, measure: usize, part: usize, col: u32)
    requires
        0 <= from,
        to <= s.chains.len(),
    ensures
        close_range(s, from, to, measure, part, col).chains.len() == s.chains.len(),
    decreases to - from,
{
    if from < to {
        lemma_close_range_len(close_depth(s, from, measure, part, col), from + 1, to, measure, part, col);
    }
}

/// The slur over a chain of two or more notes, from its carried-over
/// opening (or its first note) to its last note; nothing for a shorter
/// chain.
pub open spec fn chain_slurs(
    chain: Chain,
    open: Option<PendingSlurOpen>,
    measure: usize,
    part: usize,
) -> Seq<SlurSpan> {
    if chain.len() <= 1 {
        Seq::empty()
    } else {
        let (fm, fc) = match open {
            Some(o) => (o.measure_index, o.from_column),
            None => (measure, chain[0].0),
        };
        seq![slur(part, fm, fc, measure, chain.last().0)]
    }
}

pub fn flush_chain(
    chain: &Vec<(u32, SlurKey)>,
    pending_open: Option<PendingSlurOpen>,
    slur_spans: &mut Vec<SlurSpan>,
    measure_index: usize,
    part_index: usize,
)
    ensures
        final(slur_spans)@ == old(slur_spans)@ + chain_slurs(chain@, pending_open, measure_index, part_index),
{
    let ghost s0 = slur_spans@;
    if chain.len() <= 1 {
        assert(s0 + chain_slurs(chain@, pending_open, measure_index, part_index) =~= s0);
        return;
    }
    let first = chain[0];
    let last = chain[chain.len() - 1];
    let (from_measure, from_column) = match pending_open {
        Some(o) => (o.measure_index, o.from_column),
        None => (measure_index, first.0),
    };
    slur_spans.push(
        SlurSpan {
            kind: ArcKind::Slur,
            part_index,
            from_measure,
            from_column,
            to_measure: measure_index,
            to_column: last.0,
        },
    );
    assert(slur_spans@ =~= s0 + chain_slurs(chain@, pending_open, measure_index, part_index));
}

proof fn lemma_close_range_keeps_slurs(s: ChainState, from: int, to: int, measure: usize, part: usize, col: u32)
    ensures
        close_range(s, from, to, measure, part, col).slurs.len() >= s.slurs.len(),
        forall|i: int|
            0 <= i < s.slurs.len() ==> #[trigger] close_range(s, from, to, measure, part, col).slurs[i]
                == s.slurs[i],
    decreases to - from,
{
    if from < to {
        lemma_close_range_keeps_slurs(close_depth(s, from, measure, part, col), from + 1, to, measure, part, col);
    }
}

/// Joining and closing slur chains only ever appends spans.
pub proof fn lemma_extended_keeps_slurs(
    s: ChainState,
    membership: u8,
    continuation: u8,
    col: u32,
    key: SlurKey,
    measure: usize,
    part: usize,
)
    ensures
        extended(s, membership, continuation, col, key, measure, part).slurs.len() >= s.slurs.len(),
        forall|i: int|
            0 <= i < s.slurs.len() ==> #[trigger] extended(s, membership, continuation, col, key, measure, part).slurs[i]
                == s.slurs[i],
{
    let chains = pushed_chains(padded_chains(s.chains, membership as int), membership as int, (col, key));
    lemma_close_range_keeps_slurs(
        ChainState { chains, opens: s.opens, slurs: s.slurs },
        continuation as int,
        membership as int,
        measure,
        part,
        col,
    );
}

pub fn extend_note_chains(
    chains: &mut Vec<Vec<(u32, SlurKey)>>,
    pending_slur_opens: &mut Vec<Option<PendingSlurOpen>>,
    slur_spans: &mut Vec<SlurSpan>,
    measure_index: usize,
    part_index: usize,
    membership: u8,
    continuation: u8,
    col: u32,
    key: SlurKey,
)
    ensures
        (ChainState {
            chains: chains_view(final(chains)@),
            opens: final(pending_slur_opens)@,
            slurs: final(slur_spans)@,
        }) == extended(
            ChainState {
                chains: chains_view(old(chains)@),
                opens: old(pending_slur_opens)@,
                slurs: old(slur_spans)@,
            },
            membership,
            continuation,
            col,
            key,
            measure_index,
            part_index,
        ),
{
    let ghost c0 = chains_view(chains@);
    let m = membership as usize;
    while chains.len() < m
        invariant
            chains_view(chains@) == padded_chains(c0, chains@.len() as int),
            c0.len() <= chains@.len(),
            chains@.len() == c0.len() || chains@.len() <= m,
        decreases m - chains@.len(),
    {
        let ghost before = chains@;
        let fresh: Vec<(u32, SlurKey)> = Vec::new();
        chains.push(fresh);
        assert(chains@.last()@ == Seq::<(u32, SlurKey)>::empty());
        assert(chains@.drop_last() == before);
        assert forall|k: int| 0 <= k < chains@.len() implies chains_view(chains@)[k] == padded_chains(
            c0,
            chains@.len() as int,
        )[k] by {
            if k < before.len() {
                assert(chains@[k] == before[k]);
                assert(chains_view(before)[k] == padded_chains(c0, before.len() as int)[k]);
            }
        }
        assert(chains_view(chains@) =~= padded_chains(c0, chains@.len() as int));
    }
    assert(chains_view(chains@) =~= padded_chains(c0, m as int));
    let ghost c1 = chains_view(chains@);
    for i in 0..m
        invariant
            c1.len() == chains@.len(),
            m <= chains@.len(),
            chains_view(chains@) == Seq::new(
                c1.len(),
                |k: int| if k < i { c1[k].push((col, key)) } else { c1[k] },
            ),
    {
        let ghost before = chains@;
        chains[i].push((col, key));
        assert(chains@.len() == before.len());
        assert(forall|k: int| 0 <= k < chains@.len() && k != i ==> chains@[k] == before[k]);
        assert(chains@[i as int]@ == before[i as int]@.push((col, key)));
        assert forall|k: int| 0 <= k < chains@.len() implies chains_view(chains@)[k] == (if k < i + 1 {
            c1[k].push((col, key))
        } else {
            c1[k]
        }) by {
            assert(chains_view(before)[k] == before[k]@);
            if k != i {
                assert(chains@[k] == before[k]);
            }
        }
        assert(chains_view(chains@) =~= Seq::new(
            c1.len(),
            |k: int| if k < i + 1 { c1[k].push((col, key)) } else { c1[k] },
        ));
    }
    assert(chains_view(chains@) =~= pushed_chains(c1, m as int, (col, key)));
    let ghost start = ChainState {
        chains: chains_view(chains@),
        opens: pending_slur_opens@,
        slurs: slur_spans@,
    };
    let mut depth = continuation as usize;
    while depth < m
        invariant
            m <= chains@.len(),
            continuation <= depth || m <= continuation,
            start.chains.len() == chains@.len(),
            ({
                let s = ChainState {
                    chains: chains_view(chains@),
                    opens: pending_slur_opens@,
                    slurs: slur_spans@,
                };
                close_range(s, depth as int, m as int, measure_index, part_index, col) == close_range(
                    start,
                    continuation as int,
                    m as int,
                    measure_index,
                    part_index,
                    col,
                )
            }),
        decreases m - depth,
    {
        let ghost s = ChainState {
            chains: chains_view(chains@),
            opens: pending_slur_opens@,
            slurs: slur_spans@,
        };
        let ghost next = close_depth(s, depth as int, measure_index, part_index, col);
        let len = chains[depth].len();
        let open = if depth < pending_slur_opens.len() {
            let o = pending_slur_opens[depth];
            if len >= 1 {
                pending_slur_opens[depth] = None;
            }
            o
        } else {
            None
        };
        if len > 1 {
            flush_chain(&chains[depth], open, slur_spans, measure_index, part_index);
        } else if len == 1 {
            if let Some(o) = open {
                slur_spans.push(
                    SlurSpan {
                        kind: ArcKind::Slur,
                        part_index,
                        from_measure: o.measure_index,
                        from_column: o.from_column,
                        to_measure: measure_index,
                        to_column: col,
                    },
                );
            }
        }
        chains[depth].clear();
        assert(chains_view(chains@) =~= next.chains);
        assert(pending_slur_opens@ =~= next.opens);
        assert(slur_spans@ =~= next.slurs);
        depth = depth + 1;
    }
    proof {
        let s = ChainState {
            chains: chains_view(chains@),
            opens: pending_slur_opens@,
            slurs: slur_spans@,
        };
        assert(close_range(s, depth as int, m as int, measure_index, part_index, col) == s);
    }
}

/// Keeping depth `depth`'s opening across the measure boundary: a chain of
/// two or more notes keeps its carried-over opening or opens at its first
/// note; a lone note opens there unless an opening is already recorded.
pub open spec fn preserve_depth(
    opens: Seq<Option<PendingSlurOpen>>,
    chain: Chain,
    depth: int,
    measure: usize,
) -> Seq<Option<PendingSlurOpen>> {
    let padded = padded_opens(opens, depth + 1);
    if chain.len() > 1 {
        let origin = if depth < opens.len() && opens[depth] is Some {
            opens[depth]->0
        } else {
            PendingSlurOpen { measure_index: measure, from_column: chain[0].0 }
        };
        padded.update(depth, Some(origin))
    } else if chain.len() == 1 {
        if padded[depth] is None {
            padded.update(depth, Some(PendingSlurOpen { measure_index: measure, from_column: chain[0].0 }))
        } else {
            padded
        }
    } else {
        opens
    }
}

pub open spec fn preserved_upto(
    chains: Seq<Chain>,
    opens: Seq<Option<PendingSlurOpen>>,
    n: int,
    measure: usize,
) -> Seq<Option<PendingSlurOpen>>
    decreases n,
{
    if n <= 0 {
        opens
    } else {
        preserve_depth(preserved_upto(chains, opens, n - 1, measure), chains[n - 1], n - 1, measure)
    }
}

pub fn preserve_cross_measure_slur_opens(
    pending_chains: &Vec<Vec<(u32, SlurKey)>>,
    pending_slur_opens: &mut Vec<Option<PendingSlurOpen>>,
    measure_index: usize,
)
    ensures
        final(pending_slur_opens)@ == preserved_upto(
            chains_view(pending_chains@),
            old(pending_slur_opens)@,
            pending_chains@.len() as int,
            measure_index,
        ),
{
    let ghost o0 = pending_slur_opens@;
    let ghost cv = chains_view(pending_chains@);
    for depth in 0..pending_chains.len()
        invariant
            cv == chains_view(pending_chains@),
            pending_slur_opens@ == preserved_upto(cv, o0, depth as int, measure_index),
    {
        let ghost before = pending_slur_opens@;
        let chain = &pending_chains[depth];
        assert(chain@ == cv[depth as int]);
        if chain.len() > 1 {
            let origin = if depth < pending_slur_opens.len() && pending_slur_opens[depth].is_some() {
                pending_slur_opens[depth].unwrap()
            } else {
                PendingSlurOpen { measure_index, from_column: chain[0].0 }
            };
            pad_opens(pending_slur_opens, depth + 1);
            pending_slur_opens[depth] = Some(origin);
        } else if chain.len() == 1 {
            pad_opens(pending_slur_opens, depth + 1);
            if pending_slur_opens[depth].is_none() {
                pending_slur_opens[depth] = Some(
                    PendingSlurOpen { measure_index, from_column: chain[0].0 },
                );
            }
        }
        proof {
            assert(preserved_upto(cv, o0, depth + 1, measure_index) == preserve_depth(
                before,
                cv[depth as int],
                depth as int,
                measure_index,
            ));
            assert(pending_slur_opens@ =~= preserve_depth(
                before,
                cv[depth as int],
                depth as int,
                measure_index,
            ));
        }
    }
}

/// Every pending opening was made in measure `mi` or before.
pub open spec fn opens_before(opens: Seq<Option<PendingSlurOpen>>, mi: int) -> bool {
    forall|i: int| 0 <= i < opens.len() && (#[trigger] opens[i]) is Some ==> opens[i]->0.measure_index <= mi
}

/// Every span ends in measure `mi` and starts no later.
pub open spec fn spans_end_at(slurs: Seq<SlurSpan>, mi: int) -> bool {
    forall|k: int|
        0 <= k < slurs.len() ==> (#[trigger] slurs[k]).from_measure <= slurs[k].to_measure && slurs[k].to_measure
            == mi
}

proof fn lemma_close_depth_bounded(s: ChainState, depth: int, measure: usize, part: usize, col: u32)
    requires
        0 <= depth,
        opens_before(s.opens, measure as int),
        spans_end_at(s.slurs, measure as int),
    ensures
        opens_before(close_depth(s, depth, measure, part, col).opens, measure as int),
        spans_end_at(close_depth(s, depth, measure, part, col).slurs, measure as int),
{
    let r = close_depth(s, depth, measure, part, col);
    if depth < s.opens.len() {
        let taken = s.opens.update(depth, None);
        assert forall|i: int| 0 <= i < taken.len() && (#[trigger] taken[i]) is Some implies taken[i]->0.measure_index
            <= measure by {
            if i != depth {
                assert(taken[i] == s.opens[i]);
            }
        }
        if 0 <= depth && s.opens[depth] is Some {
            assert(s.opens[depth]->0.measure_index <= measure);
        }
    }
    assert forall|k: int| 0 <= k < r.slurs.len() implies (#[trigger] r.slurs[k]).from_measure <= r.slurs[k].to_measure
        && r.slurs[k].to_measure == measure by {
        if k < s.slurs.len() {
            assert(r.slurs[k] == s.slurs[k]);
        }
    }
}

proof fn lemma_close_range_bounded(s: ChainState, from: int, to: int, measure: usize, part: usize, col: u32)
    requires
        0 <= from,
        opens_before(s.opens, measure as int),
        spans_end_at(s.slurs, measure as int),
    ensures
        opens_before(close_range(s, from, to, measure, part, col).opens, measure as int),
        spans_end_at(close_range(s, from, to, measure, part, col).slurs, measure as int),
    decreases to - from,
{
    if from < to {
        lemma_close_depth_bounded(s, from, measure, part, col);
        lemma_close_range_bounded(close_depth(s, from, measure, part, col), from + 1, to, measure, part, col);
    }
}

/// Extending slur chains in measure `mi` only emits spans ending in `mi`
/// and starting no later, and keeps openings from `mi` or before.
pub proof fn lemma_extended_bounded(
    s: ChainState,
    membership: u8,
    continuation: u8,
    col: u32,
    key: SlurKey,
    measure: usize,
    part: usize,
)
    requires
        opens_before(s.opens, measure as int),
        spans_end_at(s.slurs, measure as int),
    ensures
        opens_before(extended(s, membership, continuation, col, key, measure, part).opens, measure as int),
        spans_end_at(extended(s, membership, continuation, col, key, measure, part).slurs, measure as int),
{
    let chains = pushed_chains(padded_chains(s.chains, membership as int), membership as int, (col, key));
    lemma_close_range_bounded(
        ChainState { chains, opens: s.opens, slurs: s.slurs },
        continuation as int,
        membership as int,
        measure,
        part,
        col,
    );
}

/// Keeping openings for the next measure only adds openings made in `mi`.
pub proof fn lemma_preserved_bounded(chains: Seq<Chain>, opens: Seq<Option<PendingSlurOpen>>, n: int, measure: usize)
    requires
        opens_before(opens, measure as int),
    ensures
        opens_before(preserved_upto(chains, opens, n, measure), measure as int),
    decreases n,
{
    if n > 0 {
        lemma_preserved_bounded(chains, opens, n - 1, measure);
        let prev = preserved_upto(chains, opens, n - 1, measure);
        let padded = padded_opens(prev, n);
        assert forall|i: int| 0 <= i < padded.len() && (#[trigger] padded[i]) is Some implies padded[i]->0.measure_index
            <= measure by {
            assert(i < prev.len());
            assert(padded[i] == prev[i]);
        }
        let r = preserved_upto(chains, opens, n, measure);
        assert forall|i: int| 0 <= i < r.len() && (#[trigger] r[i]) is Some implies r[i]->0.measure_index
            <= measure by {
            if i != n - 1 {
                if i < padded.len() {
                    assert(r[i] == padded[i] || r[i] == prev[i]);
                }
            } else if n - 1 < prev.len() && prev[n - 1] is Some {
                assert(prev[n - 1]->0.measure_index <= measure);
            }
        }
    }
}

} // verus!
