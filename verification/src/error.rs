//! Diagnostics shared by every stage: source spans, recoverable errors
//! (reported and rendered around), warnings, and the irrecoverable error type.

use vstd::prelude::*;

verus! {

/// A half-open byte range `[start, end)` into the score source.
#[derive(Debug, Clone, Copy, PartialEq, Eq, Structural)]
pub struct Span {
    pub start: usize,
    pub end: usize,
}

impl Span {
    pub fn new(start: usize, end: usize) -> (s: Span)
        ensures
            s.start == start,
            s.end == end,
    {
        Span { start, end }
    }
}

/// What went wrong, for a recoverable error.
#[derive(Debug, Clone, Copy, PartialEq, Eq, Structural)]
pub enum RecoverableErrorKind {
    /// A measure group has no attributable data line at all.
    MeasureNoDataLines,
    /// A bare data line with no preceding `[Key]` and no lyrics part to take it.
    ScoreLineMissingKeyPrefix,
    /// A bare leading data line while more than one `lyrics` part is declared.
    PositionalLyricsAmbiguousStandaloneTarget,
    /// A `[Key]` prefix naming no declared part or resolved group.
    PartKeyUnknown,
    /// Any other recoverable problem, described by its message.
    General,
    /// A measure index with no directive entry.
    MeasureDirectivesMissing,
    /// A measure that no part has a source span for.
    SourceSpanMissing,
    /// A part whose measure count differs from the first part's.
    PartMeasureCountMismatch,
    /// A timed part that has no entry for a measure.
    TimedPartMeasureMissing,
}

/// An error the pipeline reports and then works around.
#[derive(Debug)]
pub struct RecoverableError {
    pub kind: RecoverableErrorKind,
    pub span: Span,
    pub message: String,
}

/// The value-level content of a recoverable error.
pub struct ErrorView {
    pub kind: RecoverableErrorKind,
    pub span: Span,
    pub message: Seq<char>,
}

impl View for RecoverableError {
    type V = ErrorView;

    open spec fn view(&self) -> ErrorView {
        ErrorView { kind: self.kind, span: self.span, message: self.message@ }
    }
}

impl Clone for RecoverableError {
    fn clone(&self) -> (r: Self)
        ensures
            r@ == self@,
    {
        RecoverableError { kind: self.kind, span: self.span, message: self.message.clone() }
    }
}

pub open spec fn error_view(kind: RecoverableErrorKind, span: Span, message: Seq<char>) -> ErrorView {
    ErrorView { kind, span, message }
}

impl RecoverableError {
    pub fn message(&self) -> (m: &str)
        ensures
            m@ == self.message@,
    {
        self.message.as_str()
    }

    pub fn new(kind: RecoverableErrorKind, span: Span, message: String) -> (e: Self)
        ensures
            e@ == error_view(kind, span, message@),
    {
        RecoverableError { kind, span, message }
    }

    pub fn measure_no_data_lines(span: Span) -> (e: Self)
        ensures
            e@ == error_view(RecoverableErrorKind::MeasureNoDataLines, span, no_data_lines_message()),
    {
        Self::new(
            RecoverableErrorKind::MeasureNoDataLines,
            span,
            String::from_str("measure has no data lines"),
        )
    }

    pub fn score_line_missing_key_prefix(span: Span) -> (e: Self)
        ensures
            e@ == error_view(
                RecoverableErrorKind::ScoreLineMissingKeyPrefix,
                span,
                missing_key_prefix_message(),
            ),
    {
        Self::new(
            RecoverableErrorKind::ScoreLineMissingKeyPrefix,
            span,
            String::from_str("score line is missing a [Part] key prefix"),
        )
    }

    pub fn positional_lyrics_ambiguous_standalone_target(span: Span) -> (e: Self)
        ensures
            e@ == error_view(
                RecoverableErrorKind::PositionalLyricsAmbiguousStandaloneTarget,
                span,
                ambiguous_standalone_message(),
            ),
    {
        Self::new(
            RecoverableErrorKind::PositionalLyricsAmbiguousStandaloneTarget,
            span,
            String::from_str(
                "bare line before any [Part] key is ambiguous: more than one lyrics part is declared",
            ),
        )
    }

    /// An unknown `[key]`; the message names the key in brackets.
    pub fn part_key_unknown(span: Span, key: &str) -> (e: Self)
        ensures
            e@ == error_view(
                RecoverableErrorKind::PartKeyUnknown,
                span,
                unknown_key_message(key@),
            ),
    {
        let mut message = String::from_str("unknown part abbreviation [");
        message.append(key);
        message.append("]");
        proof {
            reveal_strlit("unknown part abbreviation [");
            reveal_strlit("]");
        }
        Self::new(RecoverableErrorKind::PartKeyUnknown, span, message)
    }

    pub fn measure_directives_missing(span: Span) -> (e: Self)
        ensures
            e@ == error_view(
                RecoverableErrorKind::MeasureDirectivesMissing,
                span,
                directives_missing_message(),
            ),
    {
        Self::new(
            RecoverableErrorKind::MeasureDirectivesMissing,
            span,
            String::from_str("measure has no directives"),
        )
    }

    /// A measure no part has a source span for; the message names it.
    pub fn source_span_missing(span: Span, measure_index: usize) -> (e: Self)
        ensures
            e@ == error_view(
                RecoverableErrorKind::SourceSpanMissing,
                span,
                source_span_missing_message(measure_index),
            ),
    {
        let mut message = String::from_str("no part has a source span for measure ");
        crate::text::push_decimal(&mut message, measure_index);
        proof {
            reveal_strlit("no part has a source span for measure ");
        }
        Self::new(RecoverableErrorKind::SourceSpanMissing, span, message)
    }

    /// A part whose measure count differs from the first part's.
    pub fn part_measure_count_mismatch(span: Span, part: &str, found: usize, expected: usize) -> (e: Self)
        ensures
            e@ == error_view(
                RecoverableErrorKind::PartMeasureCountMismatch,
                span,
                count_mismatch_message(part@, found, expected),
            ),
    {
        let mut message = String::from_str("part ");
        message.append(part);
        message.append(" has ");
        crate::text::push_decimal(&mut message, found);
        message.append(" measures, expected ");
        crate::text::push_decimal(&mut message, expected);
        proof {
            reveal_strlit("part ");
            reveal_strlit(" has ");
            reveal_strlit(" measures, expected ");
        }
        Self::new(RecoverableErrorKind::PartMeasureCountMismatch, span, message)
    }

    pub fn timed_part_measure_missing(span: Span) -> (e: Self)
        ensures
            e@ == error_view(
                RecoverableErrorKind::TimedPartMeasureMissing,
                span,
                timed_part_missing_message(),
            ),
    {
        Self::new(
            RecoverableErrorKind::TimedPartMeasureMissing,
            span,
            String::from_str("timed part has no measure here"),
        )
    }

    pub fn general(span: Span, message: String) -> (e: Self)
        ensures
            e@ == error_view(RecoverableErrorKind::General, span, message@),
    {
        Self::new(RecoverableErrorKind::General, span, message)
    }
}

pub open spec fn no_data_lines_message() -> Seq<char> {
    "measure has no data lines"@
}

pub open spec fn missing_key_prefix_message() -> Seq<char> {
    "score line is missing a [Part] key prefix"@
}

pub open spec fn ambiguous_standalone_message() -> Seq<char> {
    "bare line before any [Part] key is ambiguous: more than one lyrics part is declared"@
}

pub open spec fn directives_missing_message() -> Seq<char> {
    "measure has no directives"@
}

pub open spec fn source_span_missing_message(measure_index: usize) -> Seq<char> {
    "no part has a source span for measure "@ + crate::text::decimal(measure_index as nat)
}

pub open spec fn count_mismatch_message(part: Seq<char>, found: usize, expected: usize) -> Seq<char> {
    "part "@ + part + " has "@ + crate::text::decimal(found as nat) + " measures, expected "@
        + crate::text::decimal(expected as nat)
}

pub open spec fn timed_part_missing_message() -> Seq<char> {
    "timed part has no measure here"@
}

pub open spec fn unknown_key_message(key: Seq<char>) -> Seq<char> {
    "unknown part abbreviation ["@ + key + "]"@
}

/// A non-fatal notice attached to a measure.
#[derive(Debug)]
pub struct Warning {
    pub span: Span,
    pub message: String,
}

impl Clone for Warning {
    fn clone(&self) -> (r: Self)
        ensures
            r.span == self.span,
            r.message@ == self.message@,
    {
        Warning { span: self.span, message: self.message.clone() }
    }
}

/// A measure- or document-level finding: an error or a warning.
#[derive(Debug)]
pub enum Diagnostic {
    Error(RecoverableError),
    Warning(Warning),
}

/// The value of a diagnostic: whether it is an error, the error's kind
/// (`None` for a warning), its span and its message.
pub struct DiagnosticView {
    pub is_error: bool,
    pub kind: Option<RecoverableErrorKind>,
    pub span: Span,
    pub message: Seq<char>,
}

impl View for Diagnostic {
    type V = DiagnosticView;

    open spec fn view(&self) -> DiagnosticView {
        match self {
            Diagnostic::Error(e) => DiagnosticView {
                is_error: true,
                kind: Some(e.kind),
                span: e.span,
                message: e.message@,
            },
            Diagnostic::Warning(w) => DiagnosticView {
                is_error: false,
                kind: None,
                span: w.span,
                message: w.message@,
            },
        }
    }
}

impl Clone for Diagnostic {
    fn clone(&self) -> (r: Self)
        ensures
            r@ == self@,
            (r is Error) == (self is Error),
    {
        match self {
            Diagnostic::Error(e) => Diagnostic::Error(e.clone()),
            Diagnostic::Warning(w) => Diagnostic::Warning(w.clone()),
        }
    }
}

impl Diagnostic {
    pub fn message(&self) -> (m: &str)
        ensures
            m@ == self@.message,
    {
        match self {
            Diagnostic::Error(e) => e.message.as_str(),
            Diagnostic::Warning(w) => w.message.as_str(),
        }
    }

    pub fn is_error(&self) -> (b: bool)
        ensures
            b == (self is Error),
    {
        match self {
            Diagnostic::Error(_) => true,
            Diagnostic::Warning(_) => false,
        }
    }
}

/// An error that stops the pipeline.
#[derive(Debug)]
pub struct IrrecoverableError {
    pub message: String,
}

} // verus!
