//! Attribution of each raw data line to a declared part's abbreviation,
//! in top-to-bottom order: a `[Key]` line is kept and becomes the current
//! target; a bare line attaches to the current target as a positional lyric
//! verse; a bare line with no target yet goes to the only `lyrics` part, or
//! is dropped with a recoverable error.

use super::lines::{first_error, keyed_view, opt_err_view, raw_view, KeyedLine, KeyedView};
use super::prefix::{
    key_prefix, key_prefix_span, key_prefix_span_in_line, key_span, key_span_in_line, line_fits,
    parse_key_prefix,
};
use crate::ast::parsed::{PartDecl, PartKind};
use crate::error::{
    ambiguous_standalone_message, error_view, missing_key_prefix_message, ErrorView,
    RecoverableError, RecoverableErrorKind, Span,
};
use crate::text::byte_len;
use vstd::prelude::*;

verus! {

/// Where a bare line with no preceding `[Key]` goes.
pub enum StandaloneTarget {
    /// No `lyrics` part is declared.
    Nothing,
    /// Exactly one `lyrics` part is declared: its abbreviation.
    Single(String),
    /// More than one `lyrics` part is declared.
    Ambiguous,
}

/// Abbreviations of the declared `lyrics` parts, in declaration order.
pub open spec fn lyrics_abbreviations(decls: Seq<PartDecl>) -> Seq<Seq<char>>
    decreases decls.len(),
{
    if decls.len() == 0 {
        Seq::empty()
    } else {
        lyrics_abbreviations(decls.drop_last()) + if decls.last().kind == PartKind::Lyrics {
            seq![decls.last().abbreviation@]
        } else {
            Seq::empty()
        }
    }
}

pub fn standalone_lyrics_target(declarations: &[PartDecl]) -> (t: StandaloneTarget)
    ensures
        lyrics_abbreviations(declarations@).len() == 0 ==> t is Nothing,
        lyrics_abbreviations(declarations@).len() == 1 ==> (t matches StandaloneTarget::Single(
            k,
        ) && k@ == lyrics_abbreviations(declarations@)[0]),
        lyrics_abbreviations(declarations@).len() > 1 ==> t is Ambiguous,
{
    let mut first: Option<String> = None;
    let mut count: usize = 0;
    let n = declarations.len();
    for i in 0..n
        invariant
            n == declarations@.len(),
            count == lyrics_abbreviations(declarations@.take(i as int)).len(),
            count <= i,
            count == 0 <==> first is None,
            first matches Some(f) ==> f@ == lyrics_abbreviations(declarations@.take(i as int))[0],
    {
        assert(declarations@.take(i + 1).drop_last() == declarations@.take(i as int));
        if declarations[i].kind == PartKind::Lyrics {
            if count == 0 {
                first = Some(declarations[i].abbreviation.clone());
            }
            count = count + 1;
        }
    }
    assert(declarations@.take(n as int) == declarations@);
    if count == 0 {
        StandaloneTarget::Nothing
    } else if count == 1 {
        match first {
            Some(f) => StandaloneTarget::Single(f),
            None => StandaloneTarget::Nothing,
        }
    } else {
        StandaloneTarget::Ambiguous
    }
}

/// State of the attribution scan after some prefix of the data lines.
pub struct AttrState {
    pub current: Option<Seq<char>>,
    pub keyed: Seq<KeyedView>,
    pub error: Option<ErrorView>,
}

pub open spec fn sat_sub(a: nat, b: nat) -> nat {
    if a >= b {
        (a - b) as nat
    } else {
        0
    }
}

pub open spec fn one_byte_span(base: usize, offset: usize) -> Span {
    Span { start: (base + offset) as usize, end: (base + offset + 1) as usize }
}

/// A bare line attached to `key` by position.
pub open spec fn positional_line(key: Seq<char>, line: Seq<char>, offset: usize, base: usize) -> KeyedView {
    KeyedView {
        key,
        content: line,
        content_offset: offset,
        key_prefix_span: one_byte_span(base, offset),
        key_span: one_byte_span(base, offset),
        is_positional: true,
    }
}

/// One step of the attribution scan.
pub open spec fn attr_step(
    st: AttrState,
    line: Seq<char>,
    offset: usize,
    decls: Seq<PartDecl>,
    base: usize,
) -> AttrState {
    match key_prefix(line) {
        Some((key, content)) => AttrState {
            current: Some(key),
            keyed: st.keyed.push(
                KeyedView {
                    key,
                    content,
                    content_offset: (offset + sat_sub(byte_len(line), byte_len(content))) as usize,
                    key_prefix_span: key_prefix_span(line, offset, base),
                    key_span: match key_span(line, offset, base) {
                        Some(s) => s,
                        None => key_prefix_span(line, offset, base),
                    },
                    is_positional: false,
                },
            ),
            error: st.error,
        },
        None => match st.current {
            Some(k) => AttrState {
                keyed: st.keyed.push(positional_line(k, line, offset, base)),
                ..st
            },
            None => {
                let lyr = lyrics_abbreviations(decls);
                if lyr.len() == 1 {
                    AttrState {
                        keyed: st.keyed.push(positional_line(lyr[0], line, offset, base)),
                        ..st
                    }
                } else if lyr.len() > 1 {
                    AttrState {
                        error: first_error(
                            st.error,
                            error_view(
                                RecoverableErrorKind::PositionalLyricsAmbiguousStandaloneTarget,
                                one_byte_span(base, offset),
                                ambiguous_standalone_message(),
                            ),
                        ),
                        ..st
                    }
                } else {
                    AttrState {
                        error: first_error(
                            st.error,
                            error_view(
                                RecoverableErrorKind::ScoreLineMissingKeyPrefix,
                                one_byte_span(base, offset),
                                missing_key_prefix_message(),
                            ),
                        ),
                        ..st
                    }
                }
            },
        },
    }
}

/// The attribution scan over `lines`, starting from error `error0`.
pub open spec fn attr_state(
    lines: Seq<(Seq<char>, usize)>,
    decls: Seq<PartDecl>,
    base: usize,
    error0: Option<ErrorView>,
) -> AttrState
    decreases lines.len(),
{
    if lines.len() == 0 {
        AttrState { current: None, keyed: Seq::empty(), error: error0 }
    } else {
        attr_step(
            attr_state(lines.drop_last(), decls, base, error0),
            lines.last().0,
            lines.last().1,
            decls,
            base,
        )
    }
}

/// Every attributed line's content offset fits under `base` with room for a one-byte span.
pub open spec fn keyed_fit(keyed: Seq<KeyedView>, base: usize) -> bool {
    forall|i: int| 0 <= i < keyed.len() ==> base + #[trigger] keyed[i].content_offset + 1 <= usize::MAX
}

/// Every line of a group fits under `base` without overflow.
pub open spec fn lines_fit(lines: Seq<(Seq<char>, usize)>, base: usize) -> bool {
    forall|i: int| 0 <= i < lines.len() ==> line_fits(#[trigger] lines[i].0, lines[i].1, base)
}

fn positional(key: String, line: &String, offset: usize, base_offset: usize) -> (k: KeyedLine)
    requires
        base_offset + offset + 1 <= usize::MAX,
    ensures
        k@ == positional_line(key@, line@, offset, base_offset),
{
    let line_span = Span::new(base_offset + offset, base_offset + offset + 1);
    KeyedLine {
        key,
        content: line.clone(),
        content_offset: offset,
        key_prefix_span: line_span,
        key_span: line_span,
        is_positional: true,
    }
}

/// Attributes each raw data line to a declared part's abbreviation, in
/// top-to-bottom scan order (see the module documentation).
pub fn attribute_data_lines(
    data_lines: &[(String, usize)],
    declarations: &[PartDecl],
    base_offset: usize,
    recoverable_error: &mut Option<RecoverableError>,
) -> (keyed: Vec<KeyedLine>)
    requires
        lines_fit(raw_view(data_lines@), base_offset),
    ensures
        keyed_view(keyed@) == attr_state(
            raw_view(data_lines@),
            declarations@,
            base_offset,
            opt_err_view(*old(recoverable_error)),
        ).keyed,
        keyed_fit(keyed_view(keyed@), base_offset),
        opt_err_view(*final(recoverable_error)) == attr_state(
            raw_view(data_lines@),
            declarations@,
            base_offset,
            opt_err_view(*old(recoverable_error)),
        ).error,
{
    let ghost lines = raw_view(data_lines@);
    let ghost error0 = opt_err_view(*recoverable_error);
    let standalone_target = standalone_lyrics_target(declarations);
    let mut current_attribution_key: Option<String> = None;
    let mut keyed: Vec<KeyedLine> = Vec::new();
    let n = data_lines.len();
    for i in 0..n
        invariant
            n == data_lines@.len(),
            lines == raw_view(data_lines@),
            lines_fit(lines, base_offset),
            keyed_fit(keyed_view(keyed@), base_offset),
            lyrics_abbreviations(declarations@).len() == 0 ==> standalone_target is Nothing,
            lyrics_abbreviations(declarations@).len() == 1 ==> (standalone_target matches StandaloneTarget::Single(k)
                && k@ == lyrics_abbreviations(declarations@)[0]),
            lyrics_abbreviations(declarations@).len() > 1 ==> standalone_target is Ambiguous,
            ({
                let st = attr_state(lines.take(i as int), declarations@, base_offset, error0);
                &&& keyed_view(keyed@) == st.keyed
                &&& opt_err_view(*recoverable_error) == st.error
                &&& match current_attribution_key {
                    Some(k) => st.current == Some(k@),
                    None => st.current is None,
                }
            }),
    {
        let ghost prev = attr_state(lines.take(i as int), declarations@, base_offset, error0);
        assert(lines.take(i + 1).drop_last() == lines.take(i as int));
        assert(lines.take(i + 1).last() == lines[i as int]);
        assert(line_fits(lines[i as int].0, lines[i as int].1, base_offset));
        let line = &data_lines[i].0;
        let offset = data_lines[i].1;
        let ghost keyed_before = keyed@;
        match parse_key_prefix(line.as_str()) {
            Some((key, content)) => {
                proof {
                    super::prefix::lemma_key_prefix_byte_len(line@);
                }
                let prefix_length = line.as_str().len().saturating_sub(content.len());
                let key_span = match key_span_in_line(line.as_str(), offset, base_offset) {
                    Some(s) => s,
                    None => key_prefix_span_in_line(line.as_str(), offset, base_offset),
                };
                current_attribution_key = Some(String::from_str(key));
                let entry = KeyedLine {
                    key: String::from_str(key),
                    content: String::from_str(content),
                    content_offset: offset + prefix_length,
                    key_prefix_span: key_prefix_span_in_line(line.as_str(), offset, base_offset),
                    key_span,
                    is_positional: false,
                };
                keyed.push(entry);
                assert(keyed_view(keyed@) == keyed_view(keyed_before).push(entry@));
                assert(key_prefix(lines[i as int].0) == Some((key@, content@)));
            },
            None => {
                match &current_attribution_key {
                    Some(key) => {
                        let entry = positional(key.clone(), line, offset, base_offset);
                        keyed.push(entry);
                        assert(keyed_view(keyed@) == keyed_view(keyed_before).push(entry@));
                    },
                    None => {
                        match &standalone_target {
                            StandaloneTarget::Single(key) => {
                                let entry = positional(key.clone(), line, offset, base_offset);
                                keyed.push(entry);
                                assert(keyed_view(keyed@) == keyed_view(keyed_before).push(
                                    entry@,
                                ));
                            },
                            StandaloneTarget::Ambiguous => {
                                if recoverable_error.is_none() {
                                    *recoverable_error = Some(
                                        RecoverableError::positional_lyrics_ambiguous_standalone_target(
                                            Span::new(base_offset + offset, base_offset + offset + 1),
                                        ),
                                    );
                                }
                            },
                            StandaloneTarget::Nothing => {
                                if recoverable_error.is_none() {
                                    *recoverable_error = Some(
                                        RecoverableError::score_line_missing_key_prefix(
                                            Span::new(base_offset + offset, base_offset + offset + 1),
                                        ),
                                    );
                                }
                            },
                        }
                    },
                }
            },
        }
    }
    assert(lines.take(n as int) == lines);
    keyed
}

} // verus!
