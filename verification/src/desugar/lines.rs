//! The line types desugaring moves between: raw keyed lines, attributed
//! lines, and desugared slot lines, with their value-level views.

use crate::error::{ErrorView, RecoverableError, Span};
use vstd::prelude::*;

verus! {

/// A desugared score line, positionally bound to one score-line slot.
#[derive(Debug)]
pub struct SourceLine {
    pub content: String,
    pub offset: usize,
    /// Abbreviation of the group whose `[GroupAbbrev]` broadcast produced this
    /// line (or whose members all rest together here), if any.
    pub group: Option<String>,
    /// True when `content` was synthesized to stand in for a part absent from
    /// the measure group rather than written by the composer.
    pub is_implicit_fill: bool,
    /// True when this line came from a bare (unprefixed) data line attributed
    /// to its part by position rather than by a literal `[Abbrev]` prefix.
    pub is_positional: bool,
}

pub struct LineView {
    pub content: Seq<char>,
    pub offset: usize,
    pub group: Option<Seq<char>>,
    pub is_implicit_fill: bool,
    pub is_positional: bool,
}

pub open spec fn opt_str_view(o: Option<String>) -> Option<Seq<char>> {
    match o {
        Some(s) => Some(s@),
        None => None,
    }
}

impl View for SourceLine {
    type V = LineView;

    open spec fn view(&self) -> LineView {
        LineView {
            content: self.content@,
            offset: self.offset,
            group: opt_str_view(self.group),
            is_implicit_fill: self.is_implicit_fill,
            is_positional: self.is_positional,
        }
    }
}

pub fn clone_opt_string(o: &Option<String>) -> (r: Option<String>)
    ensures
        opt_str_view(r) == opt_str_view(*o),
{
    match o {
        Some(s) => Some(s.clone()),
        None => None,
    }
}

impl Clone for SourceLine {
    fn clone(&self) -> (r: Self)
        ensures
            r@ == self@,
    {
        SourceLine {
            content: self.content.clone(),
            offset: self.offset,
            group: clone_opt_string(&self.group),
            is_implicit_fill: self.is_implicit_fill,
            is_positional: self.is_positional,
        }
    }
}

pub open spec fn lines_view(s: Seq<SourceLine>) -> Seq<LineView> {
    s.map_values(|l: SourceLine| l@)
}

/// A raw score line and its byte offset, as views.
pub open spec fn raw_view(s: Seq<(String, usize)>) -> Seq<(Seq<char>, usize)> {
    s.map_values(|p: (String, usize)| (p.0@, p.1))
}

/// A data line attributed to a part (or group) abbreviation.
pub struct KeyedLine {
    pub key: String,
    pub content: String,
    pub content_offset: usize,
    /// Span of the whole bracketed `[Key]` prefix.
    pub key_prefix_span: Span,
    /// Span of just the trimmed abbreviation text.
    pub key_span: Span,
    pub is_positional: bool,
}

pub struct KeyedView {
    pub key: Seq<char>,
    pub content: Seq<char>,
    pub content_offset: usize,
    pub key_prefix_span: Span,
    pub key_span: Span,
    pub is_positional: bool,
}

impl View for KeyedLine {
    type V = KeyedView;

    open spec fn view(&self) -> KeyedView {
        KeyedView {
            key: self.key@,
            content: self.content@,
            content_offset: self.content_offset,
            key_prefix_span: self.key_prefix_span,
            key_span: self.key_span,
            is_positional: self.is_positional,
        }
    }
}

pub open spec fn keyed_view(s: Seq<KeyedLine>) -> Seq<KeyedView> {
    s.map_values(|l: KeyedLine| l@)
}

pub open spec fn opt_err_view(o: Option<RecoverableError>) -> Option<ErrorView> {
    match o {
        Some(e) => Some(e@),
        None => None,
    }
}

/// The first error reported wins.
pub open spec fn first_error(current: Option<ErrorView>, next: ErrorView) -> Option<ErrorView> {
    match current {
        Some(e) => Some(e),
        None => Some(next),
    }
}

/// A `[GroupAbbrev]` name together with its member parts' abbreviations.
#[derive(Debug)]
pub struct ResolvedGroup {
    pub abbreviation: String,
    pub members: Vec<String>,
}

} // verus!
