//! What compilation produces: per-measure blocks of rows of column-positioned
//! glyph elements, plus the slur/tie and tuplet spans laid over them, with
//! the value-level views the contracts speak of.

use crate::ast::parsed::{Accidental, JianPuPitch};
use crate::desugar::lines::{clone_opt_string, opt_str_view};
use crate::error::{Diagnostic, DiagnosticView, Span};
use vstd::prelude::*;

verus! {

#[derive(Debug, Clone, Copy, PartialEq, Eq, Structural)]
pub enum ArcKind {
    Slur,
    Tie,
}

/// Column width reserved for a collapsed `MultiMeasureRest` block, whatever
/// the number of measures it stands for.
pub const MULTI_MEASURE_REST_WIDTH: u32 = 8;

/// One measure's compiled rows.
#[derive(Debug)]
pub struct MeasureBlock {
    pub rows: Vec<MeasureRow>,
    pub decorations: Vec<Decoration>,
    /// Diagnostics collected during grouping for this measure.
    pub diagnostics: Vec<Diagnostic>,
    /// Number of source measures this block stands for: `1` for a normal
    /// block, more for a collapsed run of all-rest measures.
    pub represents_measures: usize,
    /// `merge_duplicate_measures_across_parts=` in effect on the measure.
    pub merge_duplicate_measures_across_parts: bool,
    /// A new system starts at this block.
    pub system_break: bool,
    /// Byte range of the measure(s) in the source.
    pub source_span: Span,
}

/// One row of a measure block: one part's (or one verse's) glyphs.
#[derive(Debug)]
pub struct MeasureRow {
    pub id: RowId,
    pub label: String,
    pub elements: Vec<ColumnElement>,
    /// Index of the part this row was compiled from.
    pub source_part_index: usize,
    /// Abbreviation of the group whose broadcast produced this row's content.
    pub group_provenance: Option<String>,
    /// Rows with identical content that consolidation folded into this one.
    pub absorbed_rows: Vec<MeasureRow>,
}

#[derive(Debug, PartialEq, Eq, Hash)]
pub struct RowId(pub String);

#[derive(Debug, PartialEq)]
pub struct ColumnElement {
    pub column: u32,
    pub content: ElementContent,
    /// Identity of the sounding note or rest this element belongs to, unique
    /// per part across the whole score; `None` for elements that never sound
    /// on their own (lyrics, bar lines, underlines).
    pub note_id: Option<usize>,
}

#[derive(Debug, PartialEq)]
pub enum ElementContent {
    NoteHead {
        pitch: JianPuPitch,
        accidental: Accidental,
        octave: i8,
        dotted: bool,
        double_dotted: bool,
    },
    Rest {
        dotted: bool,
        double_dotted: bool,
        /// Filled in for a part the measure never mentioned.
        implicit_fill: bool,
    },
    /// One wide rest bar standing for `count` consecutive all-rest measures.
    MultiMeasureRest {
        count: usize,
    },
    ChordSymbol {
        text: String,
        dotted: bool,
        double_dotted: bool,
    },
    PercussionHit,
    Underline {
        from_column: u32,
        to_column: u32,
        last_head_column: u32,
        level: u32,
    },
    BarLine,
    /// A dash after a note head for each extra beat of its duration.
    NoteDash {
        dotted: bool,
        double_dotted: bool,
    },
    /// A syllable of one verse (0-indexed) of a `notes+lyrics` part.
    Lyric {
        text: String,
        verse: usize,
    },
    /// One verse's full text line of a standalone `lyrics` part.
    LyricLine {
        text: String,
        verse: usize,
    },
}

/// The full extent of one slur or tie arc across measures.
#[derive(Debug, Clone, Copy, PartialEq, Eq, Structural)]
pub struct SlurSpan {
    pub kind: ArcKind,
    pub part_index: usize,
    pub from_measure: usize,
    pub from_column: u32,
    pub to_measure: usize,
    pub to_column: u32,
}

/// The extent of one tuplet bracket within one measure.
#[derive(Debug, PartialEq)]
pub struct TupletSpan {
    pub part_index: usize,
    pub measure_index: usize,
    pub from_column: u32,
    pub to_column: u32,
    /// The printed digit, e.g. "3" for a triplet.
    pub label: String,
}

/// What `compile` returns.
#[derive(Debug)]
pub struct CompileResult {
    pub blocks: Vec<MeasureBlock>,
    pub slur_spans: Vec<SlurSpan>,
    pub tuplet_spans: Vec<TupletSpan>,
}

#[derive(Debug, PartialEq)]
pub enum Decoration {
    DirectiveLine {
        label: Option<String>,
        bar_number: Option<u32>,
        key: Option<String>,
        bpm: Option<u32>,
        time_signature: Option<(u32, u32)>,
    },
}

// ── Views ────────────────────────────────────────────────────────────────────

pub enum ContentView {
    NoteHead { pitch: JianPuPitch, accidental: Accidental, octave: i8, dotted: bool, double_dotted: bool },
    Rest { dotted: bool, double_dotted: bool, implicit_fill: bool },
    MultiMeasureRest { count: usize },
    ChordSymbol { text: Seq<char>, dotted: bool, double_dotted: bool },
    PercussionHit,
    Underline { from_column: u32, to_column: u32, last_head_column: u32, level: u32 },
    BarLine,
    NoteDash { dotted: bool, double_dotted: bool },
    Lyric { text: Seq<char>, verse: usize },
    LyricLine { text: Seq<char>, verse: usize },
}

impl View for ElementContent {
    type V = ContentView;

    open spec fn view(&self) -> ContentView {
        match self {
            ElementContent::NoteHead { pitch, accidental, octave, dotted, double_dotted } =>
                ContentView::NoteHead {
                pitch: *pitch,
                accidental: *accidental,
                octave: *octave,
                dotted: *dotted,
                double_dotted: *double_dotted,
            },
            ElementContent::Rest { dotted, double_dotted, implicit_fill } => ContentView::Rest {
                dotted: *dotted,
                double_dotted: *double_dotted,
                implicit_fill: *implicit_fill,
            },
            ElementContent::MultiMeasureRest { count } => ContentView::MultiMeasureRest {
                count: *count,
            },
            ElementContent::ChordSymbol { text, dotted, double_dotted } =>
                ContentView::ChordSymbol { text: text@, dotted: *dotted, double_dotted: *double_dotted },
            ElementContent::PercussionHit => ContentView::PercussionHit,
            ElementContent::Underline { from_column, to_column, last_head_column, level } =>
                ContentView::Underline {
                from_column: *from_column,
                to_column: *to_column,
                last_head_column: *last_head_column,
                level: *level,
            },
            ElementContent::BarLine => ContentView::BarLine,
            ElementContent::NoteDash { dotted, double_dotted } => ContentView::NoteDash {
                dotted: *dotted,
                double_dotted: *double_dotted,
            },
            ElementContent::Lyric { text, verse } => ContentView::Lyric { text: text@, verse: *verse },
            ElementContent::LyricLine { text, verse } => ContentView::LyricLine {
                text: text@,
                verse: *verse,
            },
        }
    }
}

pub struct ElementView {
    pub column: u32,
    pub content: ContentView,
    pub note_id: Option<usize>,
}

impl View for ColumnElement {
    type V = ElementView;

    open spec fn view(&self) -> ElementView {
        ElementView { column: self.column, content: self.content@, note_id: self.note_id }
    }
}

pub open spec fn elements_view(s: Seq<ColumnElement>) -> Seq<ElementView> {
    s.map_values(|e: ColumnElement| e@)
}

pub struct RowView {
    pub id: Seq<char>,
    pub label: Seq<char>,
    pub elements: Seq<ElementView>,
    pub source_part_index: usize,
    pub group_provenance: Option<Seq<char>>,
    pub absorbed: Seq<RowView>,
}

/// The value of a row, absorbed rows included at every depth.
pub open spec fn row_view(r: MeasureRow) -> RowView
    decreases r, 1int,
{
    RowView {
        id: r.id.0@,
        label: r.label@,
        elements: elements_view(r.elements@),
        source_part_index: r.source_part_index,
        group_provenance: opt_str_view(r.group_provenance),
        absorbed: rows_view(r.absorbed_rows@),
    }
}

pub open spec fn rows_view(s: Seq<MeasureRow>) -> Seq<RowView>
    decreases s, 0int,
{
    if s.len() == 0 {
        Seq::empty()
    } else {
        rows_view(s.drop_last()).push(row_view(s.last()))
    }
}

impl View for MeasureRow {
    type V = RowView;

    open spec fn view(&self) -> RowView {
        row_view(*self)
    }
}

pub struct TupletSpanView {
    pub part_index: usize,
    pub measure_index: usize,
    pub from_column: u32,
    pub to_column: u32,
    pub label: Seq<char>,
}

impl View for TupletSpan {
    type V = TupletSpanView;

    open spec fn view(&self) -> TupletSpanView {
        TupletSpanView {
            part_index: self.part_index,
            measure_index: self.measure_index,
            from_column: self.from_column,
            to_column: self.to_column,
            label: self.label@,
        }
    }
}

pub open spec fn tuplets_view(s: Seq<TupletSpan>) -> Seq<TupletSpanView> {
    s.map_values(|t: TupletSpan| t@)
}

pub struct DecorationView {
    pub label: Option<Seq<char>>,
    pub bar_number: Option<u32>,
    pub key: Option<Seq<char>>,
    pub bpm: Option<u32>,
    pub time_signature: Option<(u32, u32)>,
}

impl View for Decoration {
    type V = DecorationView;

    open spec fn view(&self) -> DecorationView {
        match self {
            Decoration::DirectiveLine { label, bar_number, key, bpm, time_signature } =>
                DecorationView {
                label: opt_str_view(*label),
                bar_number: *bar_number,
                key: opt_str_view(*key),
                bpm: *bpm,
                time_signature: *time_signature,
            },
        }
    }
}

pub open spec fn diagnostics_view(s: Seq<Diagnostic>) -> Seq<DiagnosticView> {
    s.map_values(|d: Diagnostic| d@)
}

pub struct BlockView {
    pub rows: Seq<RowView>,
    pub decorations: Seq<DecorationView>,
    pub diagnostics: Seq<DiagnosticView>,
    pub represents_measures: usize,
    pub merge_duplicate_measures_across_parts: bool,
    pub system_break: bool,
    pub source_span: Span,
}

impl View for MeasureBlock {
    type V = BlockView;

    open spec fn view(&self) -> BlockView {
        BlockView {
            rows: rows_view(self.rows@),
            decorations: self.decorations@.map_values(|d: Decoration| d@),
            diagnostics: diagnostics_view(self.diagnostics@),
            represents_measures: self.represents_measures,
            merge_duplicate_measures_across_parts: self.merge_duplicate_measures_across_parts,
            system_break: self.system_break,
            source_span: self.source_span,
        }
    }
}

pub open spec fn blocks_view(s: Seq<MeasureBlock>) -> Seq<BlockView> {
    s.map_values(|b: MeasureBlock| b@)
}

/// `rows_view` is the element-wise view of the rows.
pub proof fn lemma_rows_view(s: Seq<MeasureRow>)
    ensures
        rows_view(s).len() == s.len(),
        forall|i: int| 0 <= i < s.len() ==> #[trigger] rows_view(s)[i] == row_view(s[i]),
    decreases s.len(),
{
    if s.len() > 0 {
        lemma_rows_view(s.drop_last());
    }
}

// ── Clones with known results ───────────────────────────────────────────────

impl Clone for ElementContent {
    fn clone(&self) -> (r: Self)
        ensures
            r@ == self@,
    {
        match self {
            ElementContent::NoteHead { pitch, accidental, octave, dotted, double_dotted } =>
                ElementContent::NoteHead {
                pitch: *pitch,
                accidental: *accidental,
                octave: *octave,
                dotted: *dotted,
                double_dotted: *double_dotted,
            },
            ElementContent::Rest { dotted, double_dotted, implicit_fill } => ElementContent::Rest {
                dotted: *dotted,
                double_dotted: *double_dotted,
                implicit_fill: *implicit_fill,
            },
            ElementContent::MultiMeasureRest { count } => ElementContent::MultiMeasureRest {
                count: *count,
            },
            ElementContent::ChordSymbol { text, dotted, double_dotted } =>
                ElementContent::ChordSymbol {
                text: text.clone(),
                dotted: *dotted,
                double_dotted: *double_dotted,
            },
            ElementContent::PercussionHit => ElementContent::PercussionHit,
            ElementContent::Underline { from_column, to_column, last_head_column, level } =>
                ElementContent::Underline {
                from_column: *from_column,
                to_column: *to_column,
                last_head_column: *last_head_column,
                level: *level,
            },
            ElementContent::BarLine => ElementContent::BarLine,
            ElementContent::NoteDash { dotted, double_dotted } => ElementContent::NoteDash {
                dotted: *dotted,
                double_dotted: *double_dotted,
            },
            ElementContent::Lyric { text, verse } => ElementContent::Lyric {
                text: text.clone(),
                verse: *verse,
            },
            ElementContent::LyricLine { text, verse } => ElementContent::LyricLine {
                text: text.clone(),
                verse: *verse,
            },
        }
    }
}

impl Clone for ColumnElement {
    fn clone(&self) -> (r: Self)
        ensures
            r@ == self@,
    {
        ColumnElement { column: self.column, content: self.content.clone(), note_id: self.note_id }
    }
}

impl Clone for RowId {
    fn clone(&self) -> (r: Self)
        ensures
            r.0@ == self.0@,
    {
        RowId(self.0.clone())
    }
}

pub fn clone_elements(v: &Vec<ColumnElement>) -> (r: Vec<ColumnElement>)
    ensures
        elements_view(r@) == elements_view(v@),
{
    let mut r: Vec<ColumnElement> = Vec::new();
    for i in 0..v.len()
        invariant
            elements_view(r@) == elements_view(v@).take(i as int),
    {
        let ghost before = r@;
        r.push(v[i].clone());
        assert(elements_view(r@) =~= elements_view(before).push(v@[i as int]@));
        assert(elements_view(v@).take(i + 1) =~= elements_view(v@).take(i as int).push(
            v@[i as int]@,
        ));
    }
    assert(elements_view(v@).take(v.len() as int) =~= elements_view(v@));
    r
}

fn clone_row(row: &MeasureRow) -> (r: MeasureRow)
    ensures
        r@ == row@,
    decreases *row,
{
    let mut absorbed: Vec<MeasureRow> = Vec::new();
    let n = row.absorbed_rows.len();
    proof {
        lemma_rows_view(row.absorbed_rows@);
    }
    for i in 0..n
        invariant
            n == row.absorbed_rows@.len(),
            rows_view(absorbed@) == rows_view(row.absorbed_rows@).take(i as int),
            rows_view(row.absorbed_rows@).len() == n,
            forall|k: int| 0 <= k < n ==> #[trigger] rows_view(row.absorbed_rows@)[k] == row_view(
                row.absorbed_rows@[k],
            ),
    {
        proof {
            assert(decreases_to!(*row => row.absorbed_rows));
            assert(decreases_to!(row.absorbed_rows => row.absorbed_rows@));
            assert(decreases_to!(row.absorbed_rows@ => row.absorbed_rows@[i as int]));
        }
        let c = clone_row(&row.absorbed_rows[i]);
        let ghost before = absorbed@;
        absorbed.push(c);
        assert(absorbed@.drop_last() == before);
        assert(rows_view(absorbed@) =~= rows_view(row.absorbed_rows@).take(i + 1));
    }
    assert(rows_view(row.absorbed_rows@).take(n as int) =~= rows_view(row.absorbed_rows@));
    MeasureRow {
        id: row.id.clone(),
        label: row.label.clone(),
        elements: clone_elements(&row.elements),
        source_part_index: row.source_part_index,
        group_provenance: clone_opt_string(&row.group_provenance),
        absorbed_rows: absorbed,
    }
}

impl Clone for MeasureRow {
    fn clone(&self) -> (r: Self)
        ensures
            r@ == self@,
    {
        clone_row(self)
    }
}

pub fn clone_rows(v: &Vec<MeasureRow>) -> (r: Vec<MeasureRow>)
    ensures
        rows_view(r@) == rows_view(v@),
{
    let mut r: Vec<MeasureRow> = Vec::new();
    proof {
        lemma_rows_view(v@);
    }
    for i in 0..v.len()
        invariant
            rows_view(r@) == rows_view(v@).take(i as int),
            rows_view(v@).len() == v@.len(),
            forall|k: int| 0 <= k < v@.len() ==> #[trigger] rows_view(v@)[k] == row_view(v@[k]),
    {
        let ghost before = r@;
        r.push(v[i].clone());
        assert(r@.drop_last() == before);
        assert(rows_view(r@) =~= rows_view(v@).take(i + 1));
    }
    assert(rows_view(v@).take(v.len() as int) =~= rows_view(v@));
    r
}

pub fn clone_diagnostics(v: &Vec<Diagnostic>) -> (r: Vec<Diagnostic>)
    ensures
        diagnostics_view(r@) == diagnostics_view(v@),
{
    let mut r: Vec<Diagnostic> = Vec::new();
    for i in 0..v.len()
        invariant
            diagnostics_view(r@) == diagnostics_view(v@).take(i as int),
    {
        let ghost before = r@;
        r.push(v[i].clone());
        assert(diagnostics_view(r@) =~= diagnostics_view(before).push(v@[i as int]@));
        assert(diagnostics_view(v@).take(i + 1) =~= diagnostics_view(v@).take(i as int).push(
            v@[i as int]@,
        ));
    }
    assert(diagnostics_view(v@).take(v.len() as int) =~= diagnostics_view(v@));
    r
}

impl MeasureRow {
    /// The `note_id` of the row's first element that has one.
    pub fn first_note_id(&self) -> (r: Option<usize>)
        ensures
            r == first_note_id_of(elements_view(self.elements@)),
    {
        let mut i: usize = 0;
        assert(elements_view(self.elements@).skip(0) =~= elements_view(self.elements@));
        while i < self.elements.len()
            invariant
                i <= self.elements@.len(),
                first_note_id_of(elements_view(self.elements@)) == first_note_id_of(
                    elements_view(self.elements@).skip(i as int),
                ),
            decreases self.elements@.len() - i,
        {
            assert(elements_view(self.elements@).skip(i as int).skip(1) =~= elements_view(
                self.elements@,
            ).skip(i + 1));
            if self.elements[i].note_id.is_some() {
                return self.elements[i].note_id;
            }
            i = i + 1;
        }
        None
    }
}

/// The note id of the first element of `s` that carries one.
pub open spec fn first_note_id_of(s: Seq<ElementView>) -> Option<usize>
    decreases s.len(),
{
    if s.len() == 0 {
        None
    } else if s[0].note_id is Some {
        s[0].note_id
    } else {
        first_note_id_of(s.skip(1))
    }
}

fn opt_string_equal(a: &Option<String>, b: &Option<String>) -> (r: bool)
    ensures
        r == (opt_str_view(*a) == opt_str_view(*b)),
{
    match (a, b) {
        (Some(x), Some(y)) => *x == *y,
        (None, None) => true,
        _ => false,
    }
}

fn content_equal(a: &ElementContent, b: &ElementContent) -> (r: bool)
    ensures
        r == (a@ == b@),
{
    match (a, b) {
        (
            ElementContent::NoteHead { pitch: p1, accidental: a1, octave: o1, dotted: d1, double_dotted: e1 },
            ElementContent::NoteHead { pitch: p2, accidental: a2, octave: o2, dotted: d2, double_dotted: e2 },
        ) => *p1 == *p2 && *a1 == *a2 && *o1 == *o2 && *d1 == *d2 && *e1 == *e2,
        (
            ElementContent::Rest { dotted: d1, double_dotted: e1, implicit_fill: f1 },
            ElementContent::Rest { dotted: d2, double_dotted: e2, implicit_fill: f2 },
        ) => *d1 == *d2 && *e1 == *e2 && *f1 == *f2,
        (ElementContent::MultiMeasureRest { count: c1 }, ElementContent::MultiMeasureRest { count: c2 }) => *c1
            == *c2,
        (
            ElementContent::ChordSymbol { text: t1, dotted: d1, double_dotted: e1 },
            ElementContent::ChordSymbol { text: t2, dotted: d2, double_dotted: e2 },
        ) => *t1 == *t2 && *d1 == *d2 && *e1 == *e2,
        (ElementContent::PercussionHit, ElementContent::PercussionHit) => true,
        (
            ElementContent::Underline { from_column: f1, to_column: t1, last_head_column: l1, level: v1 },
            ElementContent::Underline { from_column: f2, to_column: t2, last_head_column: l2, level: v2 },
        ) => *f1 == *f2 && *t1 == *t2 && *l1 == *l2 && *v1 == *v2,
        (ElementContent::BarLine, ElementContent::BarLine) => true,
        (
            ElementContent::NoteDash { dotted: d1, double_dotted: e1 },
            ElementContent::NoteDash { dotted: d2, double_dotted: e2 },
        ) => *d1 == *d2 && *e1 == *e2,
        (ElementContent::Lyric { text: t1, verse: v1 }, ElementContent::Lyric { text: t2, verse: v2 }) => *t1
            == *t2 && *v1 == *v2,
        (
            ElementContent::LyricLine { text: t1, verse: v1 },
            ElementContent::LyricLine { text: t2, verse: v2 },
        ) => *t1 == *t2 && *v1 == *v2,
        _ => false,
    }
}

fn elements_equal(a: &Vec<ColumnElement>, b: &Vec<ColumnElement>) -> (r: bool)
    ensures
        r == (elements_view(a@) == elements_view(b@)),
{
    let ghost av = elements_view(a@);
    let ghost bv = elements_view(b@);
    if a.len() != b.len() {
        assert(av.len() != bv.len());
        return false;
    }
    let n = a.len();
    let mut i: usize = 0;
    while i < n
        invariant
            n == a@.len(),
            n == b@.len(),
            i <= n,
            av == elements_view(a@),
            bv == elements_view(b@),
            forall|k: int| 0 <= k < i ==> #[trigger] av[k] == bv[k],
        decreases n - i,
    {
        let x = &a[i];
        let y = &b[i];
        assert(av[i as int] == x@);
        assert(bv[i as int] == y@);
        if !(x.column == y.column && content_equal(&x.content, &y.content) && x.note_id == y.note_id) {
            assert(av[i as int] != bv[i as int]);
            return false;
        }
        i = i + 1;
    }
    assert(av =~= bv);
    true
}

fn row_equal(a: &MeasureRow, b: &MeasureRow) -> (r: bool)
    ensures
        r == (a@ == b@),
    decreases *a, 1int,
{
    let same_absorbed = {
        proof {
            assert(decreases_to!(*a => a.absorbed_rows));
        }
        rows_equal(&a.absorbed_rows, &b.absorbed_rows)
    };
    a.id.0 == b.id.0 && a.label == b.label && elements_equal(&a.elements, &b.elements)
        && a.source_part_index == b.source_part_index && opt_string_equal(
        &a.group_provenance,
        &b.group_provenance,
    ) && same_absorbed
}

fn rows_equal(a: &Vec<MeasureRow>, b: &Vec<MeasureRow>) -> (r: bool)
    ensures
        r == (rows_view(a@) == rows_view(b@)),
    decreases *a, 0int,
{
    let ghost av = rows_view(a@);
    let ghost bv = rows_view(b@);
    proof {
        lemma_rows_view(a@);
        lemma_rows_view(b@);
    }
    if a.len() != b.len() {
        assert(av.len() != bv.len());
        return false;
    }
    let n = a.len();
    let mut i: usize = 0;
    while i < n
        invariant
            n == a@.len(),
            n == b@.len(),
            i <= n,
            av == rows_view(a@),
            bv == rows_view(b@),
            av.len() == n,
            bv.len() == n,
            forall|k: int| 0 <= k < n ==> #[trigger] av[k] == a@[k]@,
            forall|k: int| 0 <= k < n ==> #[trigger] bv[k] == b@[k]@,
            forall|k: int| 0 <= k < i ==> #[trigger] av[k] == bv[k],
        decreases n - i,
    {
        proof {
            assert(decreases_to!(*a => a@));
            assert(decreases_to!(a@ => a@[i as int]));
        }
        if !row_equal(&a[i], &b[i]) {
            assert(av[i as int] != bv[i as int]);
            return false;
        }
        i = i + 1;
    }
    assert(av =~= bv);
    true
}

fn decorations_equal(a: &Vec<Decoration>, b: &Vec<Decoration>) -> (r: bool)
    ensures
        r == (a@.map_values(|d: Decoration| d@) == b@.map_values(|d: Decoration| d@)),
{
    let ghost av = a@.map_values(|d: Decoration| d@);
    let ghost bv = b@.map_values(|d: Decoration| d@);
    if a.len() != b.len() {
        assert(av.len() != bv.len());
        return false;
    }
    let n = a.len();
    let mut i: usize = 0;
    while i < n
        invariant
            n == a@.len(),
            n == b@.len(),
            i <= n,
            av == a@.map_values(|d: Decoration| d@),
            bv == b@.map_values(|d: Decoration| d@),
            forall|k: int| 0 <= k < i ==> #[trigger] av[k] == bv[k],
        decreases n - i,
    {
        assert(av[i as int] == a@[i as int]@);
        assert(bv[i as int] == b@[i as int]@);
        let same = match (&a[i], &b[i]) {
            (
                Decoration::DirectiveLine { label: l1, bar_number: n1, key: k1, bpm: b1, time_signature: t1 },
                Decoration::DirectiveLine { label: l2, bar_number: n2, key: k2, bpm: b2, time_signature: t2 },
            ) => opt_string_equal(l1, l2) && *n1 == *n2 && opt_string_equal(k1, k2) && *b1 == *b2 && match (
                t1,
                t2,
            ) {
                (Some(x), Some(y)) => x.0 == y.0 && x.1 == y.1,
                (None, None) => true,
                _ => false,
            },
        };
        if !same {
            assert(av[i as int] != bv[i as int]);
            return false;
        }
        i = i + 1;
    }
    assert(av =~= bv);
    true
}

/// Two blocks are equal when their rows and decorations are.
impl PartialEq for MeasureBlock {
    fn eq(&self, other: &Self) -> (r: bool) {
        rows_equal(&self.rows, &other.rows) && decorations_equal(&self.decorations, &other.decorations)
    }
}

impl vstd::std_specs::cmp::PartialEqSpecImpl for MeasureBlock {
    open spec fn obeys_eq_spec() -> bool {
        true
    }

    open spec fn eq_spec(&self, other: &Self) -> bool {
        rows_view(self.rows@) == rows_view(other.rows@) && self.decorations@.map_values(|d: Decoration| d@)
            == other.decorations@.map_values(|d: Decoration| d@)
    }
}

} // verus!
