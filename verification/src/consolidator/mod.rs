//! Consolidation of compiled blocks: mixed notes-and-lyrics rows are split
//! into a notes row and one row per verse, then rows with identical content
//! within a block are folded into one.

use crate::compiler::types::{
    ColumnElement, CompileResult, ContentView, ElementContent, ElementView, MeasureBlock,
    MeasureRow, RowId, RowView, blocks_view, clone_elements, clone_rows,
    elements_view, lemma_rows_view, row_view, rows_view,
};
use crate::compiler::BlockView;
use crate::desugar::lines::{clone_opt_string, opt_str_view};
use crate::text::{decimal, push_decimal};
use vstd::prelude::*;

verus! {

pub open spec fn is_note_or_rest(c: ContentView) -> bool {
    c is NoteHead || c is Rest
}

pub open spec fn is_lyric(c: ContentView) -> bool {
    c is Lyric || c is LyricLine
}

/// The verse of a lyric element.
pub open spec fn verse_of(c: ContentView) -> usize {
    match c {
        ContentView::Lyric { verse, .. } => verse,
        ContentView::LyricLine { verse, .. } => verse,
        _ => 0,
    }
}

pub open spec fn has_note_or_rest(s: Seq<ElementView>) -> bool {
    exists|i: int| 0 <= i < s.len() && #[trigger] is_note_or_rest(s[i].content)
}

/// One more than the highest verse among the lyric elements; 0 if none.
pub open spec fn verse_count(s: Seq<ElementView>) -> int
    decreases s.len(),
{
    if s.len() == 0 {
        0
    } else {
        let rest = verse_count(s.drop_last());
        let here = if is_lyric(s.last().content) {
            verse_of(s.last().content) + 1
        } else {
            0
        };
        if rest >= here {
            rest
        } else {
            here
        }
    }
}

/// No lyric element is numbered with the last `usize` verse.
pub open spec fn verses_fit(s: Seq<ElementView>) -> bool {
    forall|i: int| 0 <= i < s.len() && is_lyric(#[trigger] s[i].content) ==> verse_of(s[i].content) < usize::MAX
}

/// The elements other than lyrics, in order.
pub open spec fn without_lyrics(s: Seq<ElementView>) -> Seq<ElementView>
    decreases s.len(),
{
    if s.len() == 0 {
        s
    } else if is_lyric(s.last().content) {
        without_lyrics(s.drop_last())
    } else {
        without_lyrics(s.drop_last()).push(s.last())
    }
}

/// The lyric elements of verse `v`, in order.
pub open spec fn verse_elements(s: Seq<ElementView>, v: int) -> Seq<ElementView>
    decreases s.len(),
{
    if s.len() == 0 {
        s
    } else if is_lyric(s.last().content) && verse_of(s.last().content) == v {
        verse_elements(s.drop_last(), v).push(s.last())
    } else {
        verse_elements(s.drop_last(), v)
    }
}

/// The first bar line element, if any.
pub open spec fn first_bar_line(s: Seq<ElementView>) -> Option<ElementView>
    decreases s.len(),
{
    if s.len() == 0 {
        None
    } else if s[0].content is BarLine {
        Some(s[0])
    } else {
        first_bar_line(s.skip(1))
    }
}

pub open spec fn notes_row_view(r: RowView) -> RowView {
    RowView { elements: without_lyrics(r.elements), ..r }
}

/// Verse `v`'s row: that verse's lyrics and the bar line, under the id
/// `<id>-lyrics-<v>`.
pub open spec fn lyric_row_view(r: RowView, v: int) -> RowView {
    RowView {
        id: r.id + "-lyrics-"@ + decimal(v as nat),
        elements: match first_bar_line(r.elements) {
            Some(b) => verse_elements(r.elements, v).push(b),
            None => verse_elements(r.elements, v),
        },
        ..r
    }
}

pub open spec fn lyric_rows_view(r: RowView) -> Seq<RowView> {
    Seq::new(verse_count(r.elements) as nat, |v: int| lyric_row_view(r, v))
}

/// A row with notes or rests and lyrics becomes its notes row followed by one
/// row per verse; a lyrics-only row with several verses becomes one row per
/// verse; any other row stays.
pub open spec fn expanded_row(r: RowView) -> Seq<RowView> {
    let notes = has_note_or_rest(r.elements);
    let verses = verse_count(r.elements);
    if notes && verses > 0 {
        seq![notes_row_view(r)] + lyric_rows_view(r)
    } else if !notes && verses > 1 {
        lyric_rows_view(r)
    } else {
        seq![r]
    }
}

pub open spec fn expanded_rows(rows: Seq<RowView>) -> Seq<RowView>
    decreases rows.len(),
{
    if rows.len() == 0 {
        Seq::empty()
    } else {
        expanded_rows(rows.drop_last()) + expanded_row(rows.last())
    }
}

/// Two element sequences show the same glyphs at the same columns (note
/// ids aside).
pub open spec fn content_equal(a: Seq<ElementView>, b: Seq<ElementView>) -> bool {
    &&& a.len() == b.len()
    &&& forall|k: int| 0 <= k < a.len() ==> (#[trigger] a[k]).column == b[k].column && a[k].content == b[k].content
}

/// Two rows can be folded into one: identical content, from the same part
/// unless merging across parts is on.
pub open spec fn mergeable(a: RowView, b: RowView, across: bool) -> bool {
    (across || a.source_part_index == b.source_part_index) && content_equal(a.elements, b.elements)
}

/// `keep` with `removed` (and what `removed` had absorbed) recorded as
/// absorbed.
pub open spec fn absorbed_into(keep: RowView, removed: RowView) -> RowView {
    RowView {
        absorbed: keep.absorbed.push(RowView { absorbed: Seq::empty(), ..removed }) + removed.absorbed,
        ..keep
    }
}

/// The first row after `index`, from `inner` on, that row `index` can absorb.
pub open spec fn first_match(rows: Seq<RowView>, index: int, inner: int, across: bool) -> Option<int>
    decreases rows.len() - inner,
{
    if inner >= rows.len() || inner < 0 {
        None
    } else if mergeable(rows[index], rows[inner], across) {
        Some(inner)
    } else {
        first_match(rows, index, inner + 1, across)
    }
}

/// Folding from row `index` on: the row absorbs the first later row it
/// matches, again and again, then the next row is considered.
pub open spec fn fold_from(rows: Seq<RowView>, index: int, across: bool) -> Seq<RowView>
    decreases 2 * rows.len() - index,
{
    if index < 0 || index >= rows.len() {
        rows
    } else {
        match first_match(rows, index, index + 1, across) {
            Some(j) => {
                proof {
                    lemma_first_match(rows, index, index + 1, across);
                }
                fold_from(
                    rows.update(index, absorbed_into(rows[index], rows[j])).remove(j),
                    index,
                    across,
                )
            },
            None => fold_from(rows, index + 1, across),
        }
    }
}

pub proof fn lemma_first_match(rows: Seq<RowView>, index: int, inner: int, across: bool)
    requires
        0 <= index < rows.len(),
        index < inner,
    ensures
        match first_match(rows, index, inner, across) {
            Some(j) => inner <= j < rows.len() && mergeable(rows[index], rows[j], across) && forall|
                k: int,
            | inner <= k < j ==> !mergeable(rows[index], #[trigger] rows[k], across),
            None => forall|k: int| inner <= k < rows.len() ==> !mergeable(rows[index], #[trigger] rows[k], across),
        },
    decreases rows.len() - inner,
{
    if inner < rows.len() && !mergeable(rows[index], rows[inner], across) {
        lemma_first_match(rows, index, inner + 1, across);
    }
}

pub open spec fn consolidated_rows(rows: Seq<RowView>, across: bool) -> Seq<RowView> {
    fold_from(expanded_rows(rows), 0, across)
}

pub open spec fn consolidated_block(b: BlockView) -> BlockView {
    BlockView { rows: consolidated_rows(b.rows, b.merge_duplicate_measures_across_parts), ..b }
}

/// Every lyric of every row of every block has a verse number below the last
/// `usize`.
pub open spec fn blocks_verses_fit(bs: Seq<BlockView>) -> bool {
    forall|i: int, j: int|
        0 <= i < bs.len() && 0 <= j < bs[i].rows.len() ==> verses_fit(#[trigger] bs[i].rows[j].elements)
}

proof fn lemma_rows_view_add(a: Seq<MeasureRow>, b: Seq<MeasureRow>)
    ensures
        rows_view(a + b) == rows_view(a) + rows_view(b),
{
    lemma_rows_view(a + b);
    lemma_rows_view(a);
    lemma_rows_view(b);
    assert(rows_view(a + b) =~= rows_view(a) + rows_view(b));
}

fn row_has_note_or_rest(row: &MeasureRow) -> (b: bool)
    ensures
        b == has_note_or_rest(row@.elements),
{
    let ghost ev = row@.elements;
    assert(ev == elements_view(row.elements@));
    for i in 0..row.elements.len()
        invariant
            ev == elements_view(row.elements@),
            forall|k: int| 0 <= k < i ==> !#[trigger] is_note_or_rest(ev[k].content),
    {
        match &row.elements[i].content {
            ElementContent::NoteHead { .. } | ElementContent::Rest { .. } => {
                assert(is_note_or_rest(ev[i as int].content));
                return true;
            },
            _ => {},
        }
    }
    false
}

fn lyric_verse_count(row: &MeasureRow) -> (n: usize)
    requires
        verses_fit(row@.elements),
    ensures
        n == verse_count(row@.elements),
{
    let ghost ev = row@.elements;
    let mut count: usize = 0;
    for i in 0..row.elements.len()
        invariant
            ev == elements_view(row.elements@),
            verses_fit(ev),
            count == verse_count(ev.take(i as int)),
    {
        assert(ev.take(i + 1).drop_last() =~= ev.take(i as int));
        match &row.elements[i].content {
            ElementContent::Lyric { verse, .. } | ElementContent::LyricLine { verse, .. } => {
                assert(is_lyric(ev[i as int].content));
                if *verse + 1 > count {
                    count = *verse + 1;
                }
            },
            _ => {},
        }
    }
    assert(ev.take(row.elements@.len() as int) =~= ev);
    count
}

fn notes_row(row: &MeasureRow) -> (r: MeasureRow)
    ensures
        r@ == notes_row_view(row@),
{
    let ghost ev = row@.elements;
    let mut elements: Vec<ColumnElement> = Vec::new();
    for i in 0..row.elements.len()
        invariant
            ev == elements_view(row.elements@),
            elements_view(elements@) == without_lyrics(ev.take(i as int)),
    {
        assert(ev.take(i + 1).drop_last() =~= ev.take(i as int));
        let e = &row.elements[i];
        match &e.content {
            ElementContent::Lyric { .. } | ElementContent::LyricLine { .. } => {},
            _ => {
                let ghost before = elements@;
                elements.push(e.clone());
                assert(elements_view(elements@) =~= elements_view(before).push(ev[i as int]));
            },
        }
    }
    assert(ev.take(row.elements@.len() as int) =~= ev);
    let r = MeasureRow {
        id: RowId(row.id.0.clone()),
        label: row.label.clone(),
        elements,
        source_part_index: row.source_part_index,
        group_provenance: clone_opt_string(&row.group_provenance),
        absorbed_rows: clone_rows(&row.absorbed_rows),
    };
    r
}

fn lyric_row_id(id: &RowId, verse: usize) -> (s: String)
    ensures
        s@ == id.0@ + "-lyrics-"@ + decimal(verse as nat),
{
    let mut s = id.0.clone();
    s.append("-lyrics-");
    proof {
        reveal_strlit("-lyrics-");
    }
    push_decimal(&mut s, verse);
    s
}

fn first_bar_line_of(elements: &Vec<ColumnElement>) -> (b: Option<ColumnElement>)
    ensures
        match b {
            Some(e) => first_bar_line(elements_view(elements@)) == Some(e@),
            None => first_bar_line(elements_view(elements@)) is None,
        },
{
    let ghost ev = elements_view(elements@);
    assert(ev.skip(0) =~= ev);
    let mut i: usize = 0;
    while i < elements.len()
        invariant
            i <= elements@.len(),
            ev == elements_view(elements@),
            first_bar_line(ev) == first_bar_line(ev.skip(i as int)),
        decreases elements@.len() - i,
    {
        assert(ev.skip(i as int).skip(1) =~= ev.skip(i + 1));
        if let ElementContent::BarLine = elements[i].content {
            return Some(elements[i].clone());
        }
        i = i + 1;
    }
    None
}

fn lyrics_rows(row: &MeasureRow) -> (r: Vec<MeasureRow>)
    requires
        verses_fit(row@.elements),
    ensures
        rows_view(r@) == lyric_rows_view(row@),
{
    let ghost ev = row@.elements;
    let bar_line = first_bar_line_of(&row.elements);
    let count = lyric_verse_count(row);
    let mut rows: Vec<MeasureRow> = Vec::new();
    for verse in 0..count
        invariant
            ev == elements_view(row.elements@),
            ev == row@.elements,
            count == verse_count(ev),
            rows_view(rows@) == lyric_rows_view(row@).take(verse as int),
            match bar_line {
                Some(e) => first_bar_line(ev) == Some(e@),
                None => first_bar_line(ev) is None,
            },
    {
        let mut elements: Vec<ColumnElement> = Vec::new();
        for i in 0..row.elements.len()
            invariant
                ev == elements_view(row.elements@),
                elements_view(elements@) == verse_elements(ev.take(i as int), verse as int),
        {
            assert(ev.take(i + 1).drop_last() =~= ev.take(i as int));
            let e = &row.elements[i];
            let matches_verse = match &e.content {
                ElementContent::Lyric { verse: v, .. } | ElementContent::LyricLine { verse: v, .. } => *v
                    == verse,
                _ => false,
            };
            if matches_verse {
                let ghost before = elements@;
                elements.push(e.clone());
                assert(elements_view(elements@) =~= elements_view(before).push(ev[i as int]));
            }
        }
        assert(ev.take(row.elements@.len() as int) =~= ev);
        if let Some(b) = &bar_line {
            let ghost before = elements@;
            elements.push(b.clone());
            assert(elements_view(elements@) =~= elements_view(before).push(b@));
        }
        let new_row = MeasureRow {
            id: RowId(lyric_row_id(&row.id, verse)),
            label: row.label.clone(),
            elements,
            source_part_index: row.source_part_index,
            group_provenance: clone_opt_string(&row.group_provenance),
            absorbed_rows: clone_rows(&row.absorbed_rows),
        };
        assert(new_row@ == lyric_row_view(row@, verse as int));
        let ghost rb = rows@;
        rows.push(new_row);
        proof {
            lemma_rows_view_add(rb, seq![new_row]);
            assert(rows@ == rb + seq![new_row]);
            lemma_rows_view(seq![new_row]);
            assert(rows_view(seq![new_row]) =~= seq![new_row@]);
            assert(lyric_rows_view(row@).take(verse + 1) =~= lyric_rows_view(row@).take(verse as int).push(
                lyric_row_view(row@, verse as int),
            ));
        }
    }
    assert(lyric_rows_view(row@).take(count as int) =~= lyric_rows_view(row@));
    rows
}

pub open spec fn rows_verses_fit(rows: Seq<RowView>) -> bool {
    forall|j: int| 0 <= j < rows.len() ==> verses_fit(#[trigger] rows[j].elements)
}

fn expand_mixed_rows(rows: &Vec<MeasureRow>) -> (r: Vec<MeasureRow>)
    requires
        rows_verses_fit(rows_view(rows@)),
    ensures
        rows_view(r@) == expanded_rows(rows_view(rows@)),
{
    let ghost rv = rows_view(rows@);
    proof {
        lemma_rows_view(rows@);
    }
    let mut out: Vec<MeasureRow> = Vec::new();
    for i in 0..rows.len()
        invariant
            rv == rows_view(rows@),
            rv.len() == rows@.len(),
            forall|k: int| 0 <= k < rows@.len() ==> #[trigger] rv[k] == rows@[k]@,
            rows_verses_fit(rv),
            rows_view(out@) == expanded_rows(rv.take(i as int)),
    {
        let row = &rows[i];
        assert(rv[i as int] == row@);
        assert(verses_fit(row@.elements));
        assert(rv.take(i + 1).drop_last() =~= rv.take(i as int));
        let has_note_or_rest = row_has_note_or_rest(row);
        let verse_count = lyric_verse_count(row);
        let ghost before = out@;
        let mut added: Vec<MeasureRow> = if has_note_or_rest && verse_count > 0 {
            let mut expanded = vec![notes_row(row)];
            let mut lyrics = lyrics_rows(row);
            let ghost e0 = expanded@;
            let ghost l0 = lyrics@;
            expanded.append(&mut lyrics);
            proof {
                lemma_rows_view_add(e0, l0);
                lemma_rows_view(e0);
                assert(rows_view(e0) =~= seq![notes_row_view(row@)]);
            }
            expanded
        } else if !has_note_or_rest && verse_count > 1 {
            lyrics_rows(row)
        } else {
            let v = vec![row.clone()];
            proof {
                lemma_rows_view(v@);
                assert(rows_view(v@) =~= seq![row@]);
            }
            v
        };
        assert(rows_view(added@) == expanded_row(row@));
        let ghost a0 = added@;
        out.append(&mut added);
        proof {
            lemma_rows_view_add(before, a0);
        }
    }
    assert(rv.take(rows@.len() as int) =~= rv);
    out
}

fn content_eq(a: &ElementContent, b: &ElementContent) -> (r: bool)
    ensures
        r == (a@ == b@),
{
    match (a, b) {
        (
            ElementContent::NoteHead {
                pitch: p1,
                accidental: a1,
                octave: o1,
                dotted: d1,
                double_dotted: dd1,
            },
            ElementContent::NoteHead {
                pitch: p2,
                accidental: a2,
                octave: o2,
                dotted: d2,
                double_dotted: dd2,
            },
        ) => *p1 == *p2 && *a1 == *a2 && *o1 == *o2 && *d1 == *d2 && *dd1 == *dd2,
        (
            ElementContent::Rest { dotted: d1, double_dotted: dd1, implicit_fill: f1 },
            ElementContent::Rest { dotted: d2, double_dotted: dd2, implicit_fill: f2 },
        ) => *d1 == *d2 && *dd1 == *dd2 && *f1 == *f2,
        (
            ElementContent::MultiMeasureRest { count: c1 },
            ElementContent::MultiMeasureRest { count: c2 },
        ) => *c1 == *c2,
        (
            ElementContent::ChordSymbol { text: t1, dotted: d1, double_dotted: dd1 },
            ElementContent::ChordSymbol { text: t2, dotted: d2, double_dotted: dd2 },
        ) => *t1 == *t2 && *d1 == *d2 && *dd1 == *dd2,
        (ElementContent::PercussionHit, ElementContent::PercussionHit) => true,
        (
            ElementContent::Underline {
                from_column: f1,
                to_column: t1,
                last_head_column: l1,
                level: v1,
            },
            ElementContent::Underline {
                from_column: f2,
                to_column: t2,
                last_head_column: l2,
                level: v2,
            },
        ) => *f1 == *f2 && *t1 == *t2 && *l1 == *l2 && *v1 == *v2,
        (ElementContent::BarLine, ElementContent::BarLine) => true,
        (
            ElementContent::NoteDash { dotted: d1, double_dotted: dd1 },
            ElementContent::NoteDash { dotted: d2, double_dotted: dd2 },
        ) => *d1 == *d2 && *dd1 == *dd2,
        (ElementContent::Lyric { text: t1, verse: v1 }, ElementContent::Lyric { text: t2, verse: v2 }) =>
            *t1 == *t2 && *v1 == *v2,
        (
            ElementContent::LyricLine { text: t1, verse: v1 },
            ElementContent::LyricLine { text: t2, verse: v2 },
        ) => *t1 == *t2 && *v1 == *v2,
        _ => false,
    }
}

/// Same glyphs at the same columns, note ids aside.
fn rows_content_equal(left: &MeasureRow, right: &MeasureRow) -> (b: bool)
    ensures
        b == content_equal(left@.elements, right@.elements),
{
    let ghost lv = left@.elements;
    let ghost rv = right@.elements;
    assert(lv == elements_view(left.elements@));
    assert(rv == elements_view(right.elements@));
    if left.elements.len() != right.elements.len() {
        return false;
    }
    let n = left.elements.len();
    let mut k: usize = 0;
    while k < n
        invariant
            n == left.elements@.len(),
            k <= n,
            lv == elements_view(left.elements@),
            rv == elements_view(right.elements@),
            left.elements@.len() == right.elements@.len(),
            forall|j: int| 0 <= j < k ==> (#[trigger] lv[j]).column == rv[j].column && lv[j].content == rv[j].content,
        decreases n - k,
    {
        let l = &left.elements[k];
        let r = &right.elements[k];
        assert(lv[k as int] == l@);
        assert(rv[k as int] == r@);
        if !(l.column == r.column && content_eq(&l.content, &r.content)) {
            assert(!(lv[k as int].column == rv[k as int].column && lv[k as int].content
                == rv[k as int].content));
            assert(!content_equal(lv, rv));
            return false;
        }
        k = k + 1;
    }
    true
}

/// The first row after `index` that row `index` can absorb.
fn find_match(rows: &Vec<MeasureRow>, index: usize, across: bool) -> (j: Option<usize>)
    requires
        index < rows@.len(),
    ensures
        j == match first_match(rows_view(rows@), index as int, index + 1, across) {
            Some(x) => Some(x as usize),
            None => None::<usize>,
        },
        j matches Some(x) ==> index < x < rows@.len(),
{
    let ghost rv = rows_view(rows@);
    proof {
        lemma_rows_view(rows@);
        lemma_first_match(rv, index as int, index + 1, across);
    }
    let n = rows.len();
    let mut inner = index + 1;
    while inner < rows.len()
        invariant
            index < inner <= rows@.len(),
            rv == rows_view(rows@),
            rv.len() == rows@.len(),
            forall|k: int| 0 <= k < rows@.len() ==> #[trigger] rv[k] == rows@[k]@,
            first_match(rv, index as int, index + 1, across) == first_match(rv, index as int, inner as int, across),
        decreases rows@.len() - inner,
    {
        let left = &rows[index];
        let right = &rows[inner];
        assert(rv[index as int] == left@);
        assert(rv[inner as int] == right@);
        if (across || left.source_part_index == right.source_part_index) && rows_content_equal(left, right) {
            return Some(inner);
        }
        inner = inner + 1;
    }
    None
}

/// Row `index` absorbs row `j`: `j` is removed, and it (then what it had
/// absorbed) is appended to row `index`'s absorbed rows.
fn absorb_row(rows: &mut Vec<MeasureRow>, index: usize, j: usize)
    requires
        index < j < old(rows)@.len(),
    ensures
        rows_view(final(rows)@) == rows_view(old(rows)@).update(
            index as int,
            absorbed_into(rows_view(old(rows)@)[index as int], rows_view(old(rows)@)[j as int]),
        ).remove(j as int),
{
    let ghost rv = rows_view(rows@);
    let ghost old_rows = rows@;
    proof {
        lemma_rows_view(rows@);
    }
    let mut removed = rows.remove(j);
    let ghost removed_view = removed@;
    let mut nested: Vec<MeasureRow> = Vec::new();
    std::mem::swap(&mut nested, &mut removed.absorbed_rows);
    let ghost nested_rows = nested@;
    assert(rows_view(nested_rows) == removed_view.absorbed);
    let ghost stripped = removed@;
    assert(removed.absorbed_rows@ == Seq::<MeasureRow>::empty());
    assert(stripped == RowView { absorbed: Seq::empty(), ..removed_view });
    let ghost keep_abs = rows@[index as int].absorbed_rows@;
    rows[index].absorbed_rows.push(removed);
    rows[index].absorbed_rows.append(&mut nested);
    proof {
        let new_abs = rows@[index as int].absorbed_rows@;
        assert(new_abs == keep_abs.push(removed) + nested_rows);
        lemma_rows_view_add(keep_abs.push(removed), nested_rows);
        assert(keep_abs.push(removed).drop_last() == keep_abs);
        assert(rows_view(keep_abs.push(removed)) == rows_view(keep_abs).push(stripped));
        assert(rows@[index as int]@ == absorbed_into(rv[index as int], rv[j as int]));
        lemma_rows_view(rows@);
        let target = rv.update(index as int, absorbed_into(rv[index as int], rv[j as int])).remove(j as int);
        assert forall|k: int| 0 <= k < rows@.len() implies #[trigger] rows_view(rows@)[k] == target[k] by {
            if k < j && k != index {
                assert(rows@[k] == old_rows[k]);
            } else if k >= j {
                assert(rows@[k] == old_rows[k + 1]);
            }
        }
        assert(rows_view(rows@) =~= target);
    }
}

fn consolidate_rows(rows: Vec<MeasureRow>, merge_across_parts: bool) -> (r: Vec<MeasureRow>)
    ensures
        rows_view(r@) == fold_from(rows_view(rows@), 0, merge_across_parts),
{
    let ghost target = fold_from(rows_view(rows@), 0, merge_across_parts);
    let mut rows = rows;
    let mut index: usize = 0;
    proof {
        lemma_rows_view(rows@);
    }
    while index < rows.len()
        invariant
            fold_from(rows_view(rows@), index as int, merge_across_parts) == target,
            rows_view(rows@).len() == rows@.len(),
        decreases 2 * rows@.len() - index,
    {
        match find_match(&rows, index, merge_across_parts) {
            Some(j) => {
                proof {
                    lemma_first_match(rows_view(rows@), index as int, index + 1, merge_across_parts);
                }
                absorb_row(&mut rows, index, j);
                proof {
                    lemma_rows_view(rows@);
                }
            },
            None => {
                index = index + 1;
            },
        }
    }
    rows
}

fn consolidate_block(block: MeasureBlock) -> (b: MeasureBlock)
    requires
        rows_verses_fit(block@.rows),
    ensures
        b@ == consolidated_block(block@),
{
    let merge_across_parts = block.merge_duplicate_measures_across_parts;
    let mut block = block;
    let expanded = expand_mixed_rows(&block.rows);
    block.rows = consolidate_rows(expanded, merge_across_parts);
    block
}

/// Consolidates every block of a compile result: mixed rows are split into
/// notes and per-verse lyric rows, then rows with identical content are
/// folded together (across parts only where the block allows it).
pub fn consolidate(result: CompileResult) -> (r: CompileResult)
    requires
        blocks_verses_fit(blocks_view(result.blocks@)),
    ensures
        blocks_view(r.blocks@) == blocks_view(result.blocks@).map_values(|b: BlockView| consolidated_block(b)),
        r.slur_spans == result.slur_spans,
        r.tuplet_spans == result.tuplet_spans,
{
    let CompileResult { blocks, slur_spans, tuplet_spans } = result;
    let ghost bv = blocks_view(blocks@);
    let mut blocks = blocks;
    let mut out: Vec<MeasureBlock> = Vec::new();
    let n = blocks.len();
    for i in 0..n
        invariant
            n == blocks@.len(),
            blocks_verses_fit(bv),
            bv.len() == n,
            forall|k: int| i <= k < n ==> #[trigger] blocks@[k]@ == bv[k],
            blocks_view(out@) == bv.take(i as int).map_values(|b: BlockView| consolidated_block(b)),
    {
        let mut taken = MeasureBlock {
            rows: Vec::new(),
            decorations: Vec::new(),
            diagnostics: Vec::new(),
            represents_measures: 0,
            merge_duplicate_measures_across_parts: false,
            system_break: false,
            source_span: crate::error::Span::new(0, 0),
        };
        std::mem::swap(&mut taken, &mut blocks[i]);
        assert(taken@ == bv[i as int]);
        assert forall|j: int| 0 <= j < taken@.rows.len() implies verses_fit(#[trigger] taken@.rows[j].elements) by {
            assert(verses_fit(bv[i as int].rows[j].elements));
        }
        let ghost ob = out@;
        out.push(consolidate_block(taken));
        assert(blocks_view(out@) =~= blocks_view(ob).push(consolidated_block(bv[i as int])));
        assert(bv.take(i + 1).map_values(|b: BlockView| consolidated_block(b)) =~= bv.take(i as int).map_values(
            |b: BlockView| consolidated_block(b),
        ).push(consolidated_block(bv[i as int])));
    }
    assert(bv.take(n as int) =~= bv);
    CompileResult { blocks: out, slur_spans, tuplet_spans }
}

/// No row before `index` can absorb any later row.
pub open spec fn settled_before(rows: Seq<RowView>, index: int, across: bool) -> bool {
    forall|i: int, j: int| 0 <= i < index && i < j < rows.len() ==> !mergeable(#[trigger] rows[i], #[trigger] rows[j], across)
}

proof fn lemma_fold_settled(rows: Seq<RowView>, index: int, across: bool)
    requires
        0 <= index,
        settled_before(rows, index, across),
    ensures
        settled_before(fold_from(rows, index, across), fold_from(rows, index, across).len() as int, across),
        fold_from(rows, index, across).len() <= rows.len(),
    decreases 2 * rows.len() - index,
{
    if index < rows.len() {
        lemma_first_match(rows, index, index + 1, across);
        match first_match(rows, index, index + 1, across) {
            Some(j) => {
                let next = rows.update(index, absorbed_into(rows[index], rows[j])).remove(j);
                assert forall|a: int, b: int| 0 <= a < index && a < b < next.len() implies !mergeable(
                    #[trigger] next[a],
                    #[trigger] next[b],
                    across,
                ) by {
                    assert(next[a] == rows[a]);
                    if b < j {
                        if b != index {
                            assert(next[b] == rows[b]);
                        } else {
                            assert(next[b].elements == rows[index].elements);
                            assert(next[b].source_part_index == rows[index].source_part_index);
                            assert(!mergeable(rows[a], rows[index], across));
                        }
                    } else {
                        assert(next[b] == rows[b + 1]);
                    }
                }
                lemma_fold_settled(next, index, across);
            },
            None => {
                assert forall|a: int, b: int| 0 <= a < index + 1 && a < b < rows.len() implies !mergeable(
                    #[trigger] rows[a],
                    #[trigger] rows[b],
                    across,
                ) by {
                    if a == index {
                        assert(!mergeable(rows[index], rows[b], across));
                    }
                }
                lemma_fold_settled(rows, index + 1, across);
            },
        }
    }
}

/// Consolidation leaves no two rows of a block that could still be folded
/// together, and never adds rows.
pub proof fn lemma_consolidated_rows_settled(rows: Seq<RowView>, across: bool)
    ensures
        forall|i: int, j: int|
            0 <= i < j < consolidated_rows(rows, across).len() ==> !mergeable(
                #[trigger] consolidated_rows(rows, across)[i],
                #[trigger] consolidated_rows(rows, across)[j],
                across,
            ),
        consolidated_rows(rows, across).len() <= expanded_rows(rows).len(),
{
    lemma_fold_settled(expanded_rows(rows), 0, across);
}

/// A row together with the rows it absorbed.
pub open spec fn row_weight(r: RowView) -> int {
    1 + r.absorbed.len() as int
}

/// How many rows a sequence holds, absorbed rows included.
pub open spec fn rows_total(s: Seq<RowView>) -> int
    decreases s.len(),
{
    if s.len() == 0 {
        0
    } else {
        rows_total(s.drop_last()) + row_weight(s.last())
    }
}

proof fn lemma_rows_total_update(s: Seq<RowView>, i: int, x: RowView)
    requires
        0 <= i < s.len(),
    ensures
        rows_total(s.update(i, x)) == rows_total(s) - row_weight(s[i]) + row_weight(x),
    decreases s.len(),
{
    if i < s.len() - 1 {
        lemma_rows_total_update(s.drop_last(), i, x);
        assert(s.update(i, x).drop_last() =~= s.drop_last().update(i, x));
    } else {
        assert(s.update(i, x).drop_last() =~= s.drop_last());
    }
}

proof fn lemma_rows_total_remove(s: Seq<RowView>, j: int)
    requires
        0 <= j < s.len(),
    ensures
        rows_total(s.remove(j)) == rows_total(s) - row_weight(s[j]),
    decreases s.len(),
{
    if j < s.len() - 1 {
        lemma_rows_total_remove(s.drop_last(), j);
        assert(s.remove(j).drop_last() =~= s.drop_last().remove(j));
        assert(s.remove(j).last() == s.last());
    } else {
        assert(s.remove(j) =~= s.drop_last());
    }
}

proof fn lemma_fold_keeps_total(rows: Seq<RowView>, index: int, across: bool)
    requires
        0 <= index,
    ensures
        rows_total(fold_from(rows, index, across)) == rows_total(rows),
    decreases 2 * rows.len() - index,
{
    if index < rows.len() {
        lemma_first_match(rows, index, index + 1, across);
        match first_match(rows, index, index + 1, across) {
            Some(j) => {
                let merged = absorbed_into(rows[index], rows[j]);
                let updated = rows.update(index, merged);
                lemma_rows_total_update(rows, index, merged);
                lemma_rows_total_remove(updated, j);
                lemma_fold_keeps_total(updated.remove(j), index, across);
            },
            None => {
                lemma_fold_keeps_total(rows, index + 1, across);
            },
        }
    }
}

/// Consolidation loses no row: the rows it keeps, with the rows each of
/// them absorbed, number exactly the rows that splitting verses gives.
pub proof fn lemma_consolidation_keeps_every_row(rows: Seq<RowView>, across: bool)
    ensures
        rows_total(consolidated_rows(rows, across)) == rows_total(expanded_rows(rows)),
{
    lemma_fold_keeps_total(expanded_rows(rows), 0, across);
}

/// Every row the given row absorbed comes from its own part.
pub open spec fn absorbs_own_part_only(r: RowView) -> bool {
    forall|k: int| 0 <= k < r.absorbed.len() ==> (#[trigger] r.absorbed[k]).source_part_index == r.source_part_index
}

pub open spec fn all_absorb_own_part_only(s: Seq<RowView>) -> bool {
    forall|i: int| 0 <= i < s.len() ==> absorbs_own_part_only(#[trigger] s[i])
}

proof fn lemma_expanded_keep_parts(rows: Seq<RowView>)
    requires
        all_absorb_own_part_only(rows),
    ensures
        all_absorb_own_part_only(expanded_rows(rows)),
    decreases rows.len(),
{
    if rows.len() > 0 {
        let r = rows.last();
        lemma_expanded_keep_parts(rows.drop_last());
        assert(absorbs_own_part_only(r));
        let e = expanded_row(r);
        assert forall|i: int| 0 <= i < e.len() implies absorbs_own_part_only(#[trigger] e[i]) by {
            assert(e[i].absorbed == r.absorbed && e[i].source_part_index == r.source_part_index);
        }
        let all = expanded_rows(rows);
        assert forall|i: int| 0 <= i < all.len() implies absorbs_own_part_only(#[trigger] all[i]) by {
            let head = expanded_rows(rows.drop_last());
            if i < head.len() {
                assert(all[i] == head[i]);
            } else {
                assert(all[i] == e[i - head.len()]);
            }
        }
    }
}

proof fn lemma_fold_keeps_parts(rows: Seq<RowView>, index: int)
    requires
        0 <= index,
        all_absorb_own_part_only(rows),
    ensures
        all_absorb_own_part_only(fold_from(rows, index, false)),
    decreases 2 * rows.len() - index,
{
    if index < rows.len() {
        lemma_first_match(rows, index, index + 1, false);
        match first_match(rows, index, index + 1, false) {
            Some(j) => {
                let keep = rows[index];
                let removed = rows[j];
                let merged = absorbed_into(keep, removed);
                assert(absorbs_own_part_only(keep));
                assert(absorbs_own_part_only(removed));
                assert forall|k: int| 0 <= k < merged.absorbed.len() implies (#[trigger] merged.absorbed[k]).source_part_index
                    == merged.source_part_index by {
                    let n = keep.absorbed.len();
                    if k < n {
                        assert(merged.absorbed[k] == keep.absorbed[k]);
                    } else if k > n {
                        assert(merged.absorbed[k] == removed.absorbed[k - n - 1]);
                    }
                }
                let next = rows.update(index, merged).remove(j);
                assert forall|i: int| 0 <= i < next.len() implies absorbs_own_part_only(#[trigger] next[i]) by {
                    if i < j {
                        if i != index {
                            assert(next[i] == rows[i]);
                        }
                    } else {
                        assert(next[i] == rows[i + 1]);
                    }
                }
                lemma_fold_keeps_parts(next, index);
            },
            None => {
                lemma_fold_keeps_parts(rows, index + 1);
            },
        }
    }
}

/// With merging across parts switched off, consolidation folds rows of one
/// part only: every row absorbed comes from the part of the row that
/// absorbed it, provided that already held of the rows given.
pub proof fn lemma_unmerged_parts_stay_apart(rows: Seq<RowView>)
    requires
        all_absorb_own_part_only(rows),
    ensures
        all_absorb_own_part_only(consolidated_rows(rows, false)),
{
    lemma_expanded_keep_parts(rows);
    lemma_fold_keeps_parts(expanded_rows(rows), 0);
}

/// All lyric elements of the row belong to one verse.
pub open spec fn one_verse(s: Seq<ElementView>) -> bool {
    forall|i: int, j: int|
        0 <= i < s.len() && 0 <= j < s.len() && is_lyric((#[trigger] s[i]).content) && is_lyric((#[trigger] s[j]).content)
            ==> verse_of(s[i].content) == verse_of(s[j].content)
}

pub open spec fn rows_one_verse(rows: Seq<RowView>) -> bool {
    forall|k: int| 0 <= k < rows.len() ==> one_verse(#[trigger] rows[k].elements)
}

proof fn lemma_verse_count_bounds(s: Seq<ElementView>)
    ensures
        verse_count(s) >= 0,
        forall|i: int| 0 <= i < s.len() && is_lyric((#[trigger] s[i]).content) ==> verse_of(s[i].content) < verse_count(s),
    decreases s.len(),
{
    if s.len() > 0 {
        lemma_verse_count_bounds(s.drop_last());
        assert forall|i: int| 0 <= i < s.len() && is_lyric((#[trigger] s[i]).content) implies verse_of(s[i].content)
            < verse_count(s) by {
            if i < s.len() - 1 {
                assert(s[i] == s.drop_last()[i]);
            }
        }
    }
}

proof fn lemma_without_lyrics_none(s: Seq<ElementView>)
    ensures
        forall|i: int| 0 <= i < without_lyrics(s).len() ==> !is_lyric((#[trigger] without_lyrics(s)[i]).content),
    decreases s.len(),
{
    if s.len() > 0 {
        lemma_without_lyrics_none(s.drop_last());
    }
}

proof fn lemma_verse_elements_of_verse(s: Seq<ElementView>, v: int)
    ensures
        forall|i: int|
            0 <= i < verse_elements(s, v).len() ==> is_lyric((#[trigger] verse_elements(s, v)[i]).content)
                && verse_of(verse_elements(s, v)[i].content) == v,
    decreases s.len(),
{
    if s.len() > 0 {
        lemma_verse_elements_of_verse(s.drop_last(), v);
    }
}

proof fn lemma_first_bar_line_is_bar(s: Seq<ElementView>)
    ensures
        first_bar_line(s) matches Some(b) ==> b.content is BarLine,
    decreases s.len(),
{
    if s.len() > 0 && !(s[0].content is BarLine) {
        lemma_first_bar_line_is_bar(s.skip(1));
    }
}

proof fn lemma_expanded_row_one_verse(r: RowView)
    ensures
        rows_one_verse(expanded_row(r)),
{
    let notes = has_note_or_rest(r.elements);
    let verses = verse_count(r.elements);
    lemma_verse_count_bounds(r.elements);
    let e = expanded_row(r);
    lemma_without_lyrics_none(r.elements);
    lemma_first_bar_line_is_bar(r.elements);
    assert forall|k: int| 0 <= k < e.len() implies one_verse(#[trigger] e[k].elements) by {
        let x = e[k];
        if notes && verses > 0 && k == 0 {
            assert(x == notes_row_view(r));
        } else if (notes && verses > 0) || (!notes && verses > 1) {
            let v = if notes && verses > 0 {
                k - 1
            } else {
                k
            };
            assert(x == lyric_row_view(r, v));
            lemma_verse_elements_of_verse(r.elements, v);
            let ve = verse_elements(r.elements, v);
            assert forall|i: int| 0 <= i < x.elements.len() && is_lyric((#[trigger] x.elements[i]).content) implies verse_of(
                x.elements[i].content,
            ) == v by {
                if i < ve.len() {
                    assert(x.elements[i] == ve[i]);
                }
            }
        } else {
            assert(x == r);
            assert forall|i: int, j: int|
                0 <= i < x.elements.len() && 0 <= j < x.elements.len() && is_lyric((#[trigger] x.elements[i]).content)
                    && is_lyric((#[trigger] x.elements[j]).content) implies verse_of(x.elements[i].content) == verse_of(
                x.elements[j].content,
            ) by {
                assert(verse_of(x.elements[i].content) < verses);
                assert(verse_of(x.elements[j].content) < verses);
            }
        }
    }
}

proof fn lemma_expanded_rows_one_verse(rows: Seq<RowView>)
    ensures
        rows_one_verse(expanded_rows(rows)),
    decreases rows.len(),
{
    if rows.len() > 0 {
        lemma_expanded_rows_one_verse(rows.drop_last());
        lemma_expanded_row_one_verse(rows.last());
        let head = expanded_rows(rows.drop_last());
        let e = expanded_row(rows.last());
        let all = expanded_rows(rows);
        assert forall|k: int| 0 <= k < all.len() implies one_verse(#[trigger] all[k].elements) by {
            if k < head.len() {
                assert(all[k] == head[k]);
            } else {
                assert(all[k] == e[k - head.len()]);
            }
        }
    }
}

proof fn lemma_fold_one_verse(rows: Seq<RowView>, index: int, across: bool)
    requires
        0 <= index,
        rows_one_verse(rows),
    ensures
        rows_one_verse(fold_from(rows, index, across)),
    decreases 2 * rows.len() - index,
{
    if index < rows.len() {
        lemma_first_match(rows, index, index + 1, across);
        match first_match(rows, index, index + 1, across) {
            Some(j) => {
                let next = rows.update(index, absorbed_into(rows[index], rows[j])).remove(j);
                assert forall|k: int| 0 <= k < next.len() implies one_verse(#[trigger] next[k].elements) by {
                    if k < j {
                        if k != index {
                            assert(next[k] == rows[k]);
                        } else {
                            assert(next[k].elements == rows[index].elements);
                        }
                    } else {
                        assert(next[k] == rows[k + 1]);
                    }
                }
                lemma_fold_one_verse(next, index, across);
            },
            None => lemma_fold_one_verse(rows, index + 1, across),
        }
    }
}

/// After consolidation no row shows lyrics of two different verses: each
/// verse of a row with notes or of a multi-verse lyrics row ends up on a
/// row of its own.
pub proof fn lemma_consolidated_rows_one_verse_each(rows: Seq<RowView>, across: bool)
    ensures
        rows_one_verse(consolidated_rows(rows, across)),
{
    lemma_expanded_rows_one_verse(rows);
    lemma_fold_one_verse(expanded_rows(rows), 0, across);
}

} // verus!
