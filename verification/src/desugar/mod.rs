//! Desugaring of keyed measure groups: attributing each raw `[Key]` line
//! (or bare positional lyric line) to a declared part, broadcasting group
//! lines to members, following `follow[X]` targets, and filling absent
//! parts with implicit rests or blank lyrics, so every measure group holds
//! exactly one line per declared score-line slot.

pub mod attribution;
pub mod key_map;
pub mod lines;
pub mod prefix;
pub mod resolve;

use crate::ast::parsed::{flat_slots, flatten_score_line_slots, AbbreviationReference, PartDecl, ScoreLineSlot};
use crate::error::{error_view, no_data_lines_message, ErrorView, IrrecoverableError, RecoverableError, RecoverableErrorKind, Span};
use crate::text::{
    chars_of, first_index, has_prefix, is_white_space, is_whitespace, parse_u8, str_parse_u8,
    trim, trim_start, find_char, str_trim,
};
use attribution::{attr_state, attribute_data_lines, lines_fit, one_byte_span};
use key_map::{capacity_error, filter_keyed_into_key_map, grouped, map_view, merged, split_keyed};
use lines::{keyed_view, lines_view, opt_err_view, raw_view, KeyedLine, KeyedView, LineView, ResolvedGroup, SourceLine};
use resolve::{flatten_lines, resolve_tracks, slots_of, tracks};
use vstd::prelude::*;

verus! {

/// A measure group line that carries directives (`time=4/4 key=C4 ...`,
/// `break`) rather than part content: it has no `[Key]` prefix and holds a
/// `key=value` pair or is the bare word `break`.
pub open spec fn is_directive_line(s: Seq<char>) -> bool {
    &&& !(s.len() > 0 && s[0] == '[')
    &&& (s.contains('=') || trim(s) == "break"@)
}

/// Number of leading directive lines of a measure group.
pub open spec fn leading_directive_count(lines: Seq<Seq<char>>) -> nat
    decreases lines.len(),
{
    if lines.len() > 0 && is_directive_line(lines[0]) {
        1 + leading_directive_count(lines.drop_first())
    } else {
        0
    }
}

fn is_break_word(v: &Vec<char>) -> (b: bool)
    ensures
        b == (v@ == "break"@),
{
    proof {
        reveal_strlit("break");
    }
    if v.len() == 5 && v[0] == 'b' && v[1] == 'r' && v[2] == 'e' && v[3] == 'a' && v[4] == 'k' {
        assert(v@ =~= "break"@);
        true
    } else {
        false
    }
}

fn directive_line(line: &str) -> (b: bool)
    ensures
        b == is_directive_line(line@),
{
    let v = chars_of(line);
    if v.len() > 0 && v[0] == '[' {
        return false;
    }
    if find_char(&v, '=').is_some() {
        proof {
            let i = first_index(v@, '=')->0;
            assert(v@[i] == '=');
        }
        return true;
    }
    assert(!v@.contains('=')) by {
        if v@.contains('=') {
            let i = choose|i: int| 0 <= i < v@.len() && v@[i] == '=';
            lemma_min_index_exists(v@, '=', i);
        }
    }
    let t = str_trim(line);
    let tv = chars_of(t);
    is_break_word(&tv)
}

proof fn lemma_min_index_exists(s: Seq<char>, c: char, i: int)
    requires
        0 <= i < s.len(),
        s[i] == c,
    ensures
        exists|k: int| crate::text::is_first_index(s, c, k),
    decreases i,
{
    if exists|t: int| 0 <= t < i && s[t] == c {
        let t = choose|t: int| 0 <= t < i && s[t] == c;
        lemma_min_index_exists(s, c, t);
    } else {
        assert(crate::text::is_first_index(s, c, i));
    }
}

pub open spec fn line_texts(group: Seq<(Seq<char>, usize)>) -> Seq<Seq<char>> {
    group.map_values(|p: (Seq<char>, usize)| p.0)
}

/// Number of leading directive lines of a measure group.
pub fn directive_line_count(group: &[(String, usize)]) -> (n: usize)
    ensures
        n == leading_directive_count(line_texts(raw_view(group@))),
        n <= group@.len(),
{
    let ghost texts = line_texts(raw_view(group@));
    let mut i: usize = 0;
    while i < group.len() && directive_line(group[i].0.as_str())
        invariant
            i <= group@.len(),
            texts == line_texts(raw_view(group@)),
            forall|k: int| 0 <= k < i ==> is_directive_line(#[trigger] texts[k]),
        decreases group.len() - i,
    {
        i = i + 1;
    }
    proof {
        lemma_leading_count(texts, i as int);
    }
    i
}

proof fn lemma_leading_count(lines: Seq<Seq<char>>, i: int)
    requires
        0 <= i <= lines.len(),
        forall|k: int| 0 <= k < i ==> is_directive_line(#[trigger] lines[k]),
        i == lines.len() || !is_directive_line(lines[i]),
    ensures
        leading_directive_count(lines) == i,
    decreases i,
{
    if i > 0 {
        let rest = lines.drop_first();
        assert forall|k: int| 0 <= k < i - 1 implies is_directive_line(#[trigger] rest[k]) by {
            assert(rest[k] == lines[k + 1]);
        }
        if i < lines.len() {
            assert(rest[i - 1] == lines[i]);
        }
        lemma_leading_count(rest, i - 1);
    }
}


/// Length of the leading run of non-whitespace characters of `t`.
pub open spec fn token_len(t: Seq<char>) -> nat
    decreases t.len(),
{
    if t.len() == 0 || is_white_space(t[0]) {
        0
    } else {
        1 + token_len(t.drop_first())
    }
}

pub proof fn lemma_token_len_bound(t: Seq<char>)
    ensures
        token_len(t) <= t.len(),
        t.len() > 0 && !is_white_space(t[0]) ==> token_len(t) >= 1,
    decreases t.len(),
{
    if t.len() > 0 && !is_white_space(t[0]) {
        lemma_token_len_bound(t.drop_first());
    }
}

pub proof fn lemma_trim_start_first(s: Seq<char>)
    ensures
        trim_start(s).len() > 0 ==> !is_white_space(trim_start(s)[0]),
    decreases s.len(),
{
    if s.len() > 0 && is_white_space(s[0]) {
        lemma_trim_start_first(s.drop_first());
    }
}

/// The part of a `time=` value before its `/`.
pub open spec fn before_slash(x: Seq<char>) -> Seq<char> {
    match first_index(x, '/') {
        Some(i) => x.take(i),
        None => x,
    }
}

/// The numerator of the first whitespace-separated `time=N/D` token of a
/// line, when it parses as a `u8`; `None` when the first `time=` token's
/// numerator does not parse or there is no `time=` token.
pub open spec fn time_numerator(s: Seq<char>) -> Option<u8>
    decreases s.len(),
{
    let t = trim_start(s);
    if t.len() == 0 {
        None
    } else {
        let k = token_len(t);
        let tok = t.take(k as int);
        if has_prefix(tok, "time="@) {
            parse_u8(before_slash(tok.skip(5)))
        } else {
            proof {
                crate::text::lemma_trim_start_len(s);
                lemma_trim_start_first(s);
                lemma_token_len_bound(t);
            }
            time_numerator(t.skip(k as int))
        }
    }
}

pub open spec fn group_time_numerator(group: Seq<(Seq<char>, usize)>) -> Option<u8> {
    if group.len() > 0 {
        time_numerator(group[0].0)
    } else {
        None
    }
}

proof fn lemma_token_len_at(t: Seq<char>, k: int)
    requires
        0 <= k <= t.len(),
        forall|j: int| 0 <= j < k ==> !is_white_space(#[trigger] t[j]),
        k == t.len() || is_white_space(t[k]),
    ensures
        token_len(t) == k,
    decreases k,
{
    if k > 0 {
        let r = t.drop_first();
        assert forall|j: int| 0 <= j < k - 1 implies !is_white_space(#[trigger] r[j]) by {
            assert(r[j] == t[j + 1]);
        }
        if k < t.len() {
            assert(r[k - 1] == t[k]);
        }
        lemma_token_len_at(r, k - 1);
    }
}

fn has_time_prefix(v: &Vec<char>, start: usize, end: usize) -> (b: bool)
    requires
        start <= end <= v@.len(),
    ensures
        b == has_prefix(v@.subrange(start as int, end as int), "time="@),
        b ==> end - start >= 5,
{
    proof {
        reveal_strlit("time=");
    }
    let ghost tok = v@.subrange(start as int, end as int);
    if end - start >= 5 && v[start] == 't' && v[start + 1] == 'i' && v[start + 2] == 'm'
        && v[start + 3] == 'e' && v[start + 4] == '=' {
        assert(tok.take(5) =~= "time="@);
        true
    } else {
        assert(has_prefix(tok, "time="@) ==> tok.take(5)[0] == 't' && tok.take(5)[1] == 'i'
            && tok.take(5)[2] == 'm' && tok.take(5)[3] == 'e' && tok.take(5)[4] == '=');
        false
    }
}

/// The time-signature numerator of a measure group's first line, if it
/// carries a `time=N/D` directive whose `N` parses as a `u8`.
pub fn extract_time_numerator(group: &[(String, usize)]) -> (r: Option<u8>)
    ensures
        r == group_time_numerator(raw_view(group@)),
{
    if group.len() == 0 {
        return None;
    }
    let line = group[0].0.as_str();
    let v = chars_of(line);
    let n = v.len();
    let mut pos: usize = 0;
    assert(v@.skip(0) == v@);
    while pos < n
        invariant
            pos <= n,
            n == v@.len(),
            v@ == line@,
            group@.len() > 0,
            line@ == group@[0].0@,
            raw_view(group@)[0].0 == line@,
            time_numerator(v@) == time_numerator(v@.skip(pos as int)),
        decreases n - pos,
    {
        let ghost rest = v@.skip(pos as int);
        let mut start = pos;
        while start < n && is_whitespace(v[start])
            invariant
                pos <= start <= n,
                n == v@.len(),
                trim_start(rest) == trim_start(v@.skip(start as int)),
                rest == v@.skip(pos as int),
            decreases n - start,
        {
            assert(v@.skip(start as int).drop_first() == v@.skip(start + 1));
            start = start + 1;
        }
        assert(trim_start(v@.skip(start as int)) == v@.skip(start as int));
        if start == n {
            assert(v@.skip(start as int).len() == 0);
            return None;
        }
        let mut end = start;
        while end < n && !is_whitespace(v[end])
            invariant
                start <= end <= n,
                n == v@.len(),
                forall|j: int| start <= j < end ==> !is_white_space(#[trigger] v@[j]),
            decreases n - end,
        {
            end = end + 1;
        }
        let ghost t = v@.skip(start as int);
        proof {
            assert forall|j: int| 0 <= j < end - start implies !is_white_space(#[trigger] t[j]) by {
                assert(t[j] == v@[start + j]);
            }
            if end < n {
                assert(t[end - start] == v@[end as int]);
            }
            lemma_token_len_at(t, end - start);
        }
        assert(t.take(end - start) == v@.subrange(start as int, end as int));
        if has_time_prefix(&v, start, end) {
            let token = line.substring_char(start + 5, end);
            assert(token@ == t.take(end - start).skip(5));
            let tv = chars_of(token);
            let numerator = match find_char(&tv, '/') {
                Some(i) => token.substring_char(0, i),
                None => token,
            };
            assert(numerator@ == before_slash(token@));
            assert(time_numerator(rest) == parse_u8(before_slash(t.take(end - start).skip(5))));
            return str_parse_u8(numerator);
        }
        assert(t.skip(end - start) == v@.skip(end as int));
        assert(time_numerator(rest) == time_numerator(t.skip(end - start)));
        pos = end;
    }
    assert(v@.skip(n as int).len() == 0);
    assert(trim_start(v@.skip(n as int)).len() == 0);
    None
}


/// `[Abbrev]` references of attributed lines: every non-positional line's
/// key and the span of its abbreviation text.
pub open spec fn refs_of(keyed: Seq<KeyedView>) -> Seq<(Seq<char>, Span)>
    decreases keyed.len(),
{
    if keyed.len() == 0 {
        Seq::empty()
    } else if keyed.last().is_positional {
        refs_of(keyed.drop_last())
    } else {
        refs_of(keyed.drop_last()).push((keyed.last().key, keyed.last().key_span))
    }
}

pub open spec fn ref_view(r: AbbreviationReference) -> (Seq<char>, Span) {
    (r.abbreviation@, r.span)
}

pub open spec fn refs_view(s: Seq<AbbreviationReference>) -> Seq<(Seq<char>, Span)> {
    s.map_values(|r: AbbreviationReference| ref_view(r))
}

/// One desugared measure group.
pub struct Expanded {
    pub lines: Seq<LineView>,
    pub slots: Seq<ScoreLineSlot>,
    pub error: Option<ErrorView>,
    pub refs: Seq<(Seq<char>, Span)>,
}

pub open spec fn directive_view(p: (Seq<char>, usize)) -> LineView {
    LineView { content: p.0, offset: p.1, group: None, is_implicit_fill: false, is_positional: false }
}

/// The span an empty measure group's error points at: its last data line,
/// else its last line, else the base offset.
pub open spec fn group_span(group: Seq<(Seq<char>, usize)>, data: Seq<(Seq<char>, usize)>, base: usize) -> Span {
    if data.len() > 0 {
        one_byte_span(base, data.last().1)
    } else if group.len() > 0 {
        one_byte_span(base, group.last().1)
    } else {
        Span { start: base, end: (base + 1) as usize }
    }
}

/// A measure group desugared: its directive lines unchanged, then one line
/// per slot of every declared part (see `tracks`), with the first
/// recoverable error and the `[Abbrev]` references found.
pub open spec fn expand_group(
    group: Seq<(Seq<char>, usize)>,
    decls: Seq<PartDecl>,
    groups: Seq<ResolvedGroup>,
    base: usize,
    time_num: u8,
) -> Expanded {
    let dc = leading_directive_count(line_texts(group)) as int;
    let directives = group.take(dc);
    let data = group.skip(dc);
    let pad = if data.len() > 0 {
        data.last().1
    } else {
        0
    };
    let a = attr_state(data, decls, base, None);
    let refs = refs_of(a.keyed);
    if a.keyed.len() == 0 {
        Expanded {
            lines: directives.map_values(|p: (Seq<char>, usize)| directive_view(p)),
            slots: flat_slots(decls),
            error: Some(
                error_view(
                    RecoverableErrorKind::MeasureNoDataLines,
                    group_span(group, data, base),
                    no_data_lines_message(),
                ),
            ),
            refs,
        }
    } else {
        let sp = split_keyed(a.keyed, decls, groups, a.error);
        let m = merged(grouped(sp.part), grouped(sp.group), groups);
        let t = tracks(decls, m, groups, time_num, pad, decls.len());
        Expanded {
            lines: directives.map_values(|p: (Seq<char>, usize)| directive_view(p)) + flatten_lines(
                t.lines,
            ),
            slots: slots_of(t.roles),
            error: capacity_error(m, decls, base, sp.error),
            refs,
        }
    }
}

fn copy_raw_line(p: &(String, usize)) -> (r: (String, usize))
    ensures
        r.0@ == p.0@,
        r.1 == p.1,
{
    (p.0.clone(), p.1)
}

/// Attributed lines keyed into the declarations' and groups' line lists,
/// then resolved into every declaration's lines and slots.
fn expand_keyed(
    keyed: &Vec<KeyedLine>,
    declarations: &[PartDecl],
    resolved_groups: &[ResolvedGroup],
    base_offset: usize,
    time_num: u8,
    pad_offset: usize,
    recoverable_error: &mut Option<RecoverableError>,
) -> (r: (Vec<SourceLine>, Vec<ScoreLineSlot>))
    requires
        attribution::keyed_fit(keyed_view(keyed@), base_offset),
    ensures
        ({
            let s = split_keyed(
                keyed_view(keyed@),
                declarations@,
                resolved_groups@,
                opt_err_view(*old(recoverable_error)),
            );
            let m = merged(grouped(s.part), grouped(s.group), resolved_groups@);
            let t = tracks(declarations@, m, resolved_groups@, time_num, pad_offset, declarations@.len());
            &&& lines_view(r.0@) == flatten_lines(t.lines)
            &&& r.1@ == slots_of(t.roles)
            &&& opt_err_view(*final(recoverable_error)) == capacity_error(m, declarations@, base_offset, s.error)
        }),
{
    let key_map = filter_keyed_into_key_map(keyed, declarations, resolved_groups, base_offset, recoverable_error);
    resolve_tracks(&key_map, declarations, resolved_groups, time_num, pad_offset)
}

fn expand_measure_group(
    group: &Vec<(String, usize)>,
    declarations: &[PartDecl],
    resolved_groups: &[ResolvedGroup],
    base_offset: usize,
    time_num: u8,
) -> (r: (Vec<SourceLine>, Vec<ScoreLineSlot>, Option<RecoverableError>, Vec<AbbreviationReference>))
    requires
        lines_fit(raw_view(group@), base_offset),
        base_offset < usize::MAX,
    ensures
        ({
            let e = expand_group(raw_view(group@), declarations@, resolved_groups@, base_offset, time_num);
            &&& lines_view(r.0@) == e.lines
            &&& r.1@ == e.slots
            &&& opt_err_view(r.2) == e.error
            &&& refs_view(r.3@) == e.refs
        }),
{
    let ghost g = raw_view(group@);
    let directive_count = directive_line_count(group.as_slice());
    let mut directive_lines: Vec<(String, usize)> = Vec::new();
    let mut data_lines: Vec<(String, usize)> = Vec::new();
    for i in 0..group.len()
        invariant
            directive_count <= group@.len(),
            g == raw_view(group@),
            i <= directive_count ==> raw_view(directive_lines@) == g.take(i as int),
            i <= directive_count ==> data_lines@.len() == 0,
            i > directive_count ==> raw_view(directive_lines@) == g.take(directive_count as int),
            i > directive_count ==> raw_view(data_lines@) == g.subrange(directive_count as int, i as int),
    {
        let ghost d0 = directive_lines@;
        let ghost a0 = data_lines@;
        if i < directive_count {
            directive_lines.push(copy_raw_line(&group[i]));
            assert(raw_view(directive_lines@) =~= raw_view(d0).push(g[i as int]));
        } else {
            data_lines.push(copy_raw_line(&group[i]));
            assert(raw_view(data_lines@) =~= raw_view(a0).push(g[i as int]));
        }
    }
    let ghost dc = directive_count as int;
    assert(raw_view(directive_lines@) == g.take(dc)) by {
        if group@.len() as int == dc {
            assert(g.take(dc) == g.take(group@.len() as int));
        }
    }
    assert(raw_view(data_lines@) == g.skip(dc)) by {
        if (group@.len() as int) > dc {
            assert(g.subrange(dc, group@.len() as int) == g.skip(dc));
        } else {
            assert(g.skip(dc).len() == 0);
            assert(raw_view(data_lines@).len() == 0);
        }
    }
    assert(lines_fit(raw_view(data_lines@), base_offset)) by {
        assert forall|i: int| 0 <= i < raw_view(data_lines@).len() implies crate::desugar::prefix::line_fits(
            #[trigger] raw_view(data_lines@)[i].0,
            raw_view(data_lines@)[i].1,
            base_offset,
        ) by {
            assert(raw_view(data_lines@)[i] == g[dc + i]);
        }
    }
    let ghost data = raw_view(data_lines@);
    let span = if data_lines.len() > 0 {
        let off = data_lines[data_lines.len() - 1].1;
        assert(crate::desugar::prefix::line_fits(data[data.len() - 1].0, data[data.len() - 1].1, base_offset));
        Span::new(base_offset + off, base_offset + off + 1)
    } else if group.len() > 0 {
        let off = group[group.len() - 1].1;
        assert(crate::desugar::prefix::line_fits(g[g.len() - 1].0, g[g.len() - 1].1, base_offset));
        Span::new(base_offset + off, base_offset + off + 1)
    } else {
        Span::new(base_offset, base_offset + 1)
    };
    let pad_offset = if data_lines.len() > 0 {
        data_lines[data_lines.len() - 1].1
    } else {
        0
    };
    let mut recoverable_error: Option<RecoverableError> = None;
    let keyed = attribute_data_lines(data_lines.as_slice(), declarations, base_offset, &mut recoverable_error);
    let ghost a = attr_state(data, declarations@, base_offset, None);
    let mut abbreviation_references: Vec<AbbreviationReference> = Vec::new();
    let ghost kv = keyed_view(keyed@);
    for i in 0..keyed.len()
        invariant
            kv == keyed_view(keyed@),
            refs_view(abbreviation_references@) == refs_of(kv.take(i as int)),
    {
        assert(kv.take(i + 1).drop_last() == kv.take(i as int));
        assert(kv.take(i + 1).last() == kv[i as int]);
        if !keyed[i].is_positional {
            let ghost before = abbreviation_references@;
            abbreviation_references.push(
                AbbreviationReference { abbreviation: keyed[i].key.clone(), span: keyed[i].key_span },
            );
            assert(refs_view(abbreviation_references@) =~= refs_view(before).push((kv[i as int].key, kv[i as int].key_span)));
        }
    }
    assert(kv.take(keyed@.len() as int) == kv);
    let (result_data, slots) = if keyed.len() == 0 {
        recoverable_error = Some(RecoverableError::measure_no_data_lines(span));
        (Vec::new(), flatten_score_line_slots(declarations))
    } else {
        expand_keyed(&keyed, declarations, resolved_groups, base_offset, time_num, pad_offset, &mut recoverable_error)
    };
    let mut result: Vec<SourceLine> = Vec::new();
    let dn = directive_lines.len();
    let ghost dv = raw_view(directive_lines@);
    for i in 0..dn
        invariant
            dn == directive_lines@.len(),
            dv == raw_view(directive_lines@),
            lines_view(result@) == dv.take(i as int).map_values(|p: (Seq<char>, usize)| directive_view(p)),
    {
        let ghost before = result@;
        result.push(SourceLine {
            content: directive_lines[i].0.clone(),
            offset: directive_lines[i].1,
            group: None,
            is_implicit_fill: false,
            is_positional: false,
        });
        assert(lines_view(result@) =~= lines_view(before).push(directive_view(dv[i as int])));
        assert(dv.take(i + 1).map_values(|p: (Seq<char>, usize)| directive_view(p)) =~= dv.take(i as int).map_values(|p: (Seq<char>, usize)| directive_view(p)).push(directive_view(dv[i as int])));
    }
    assert(dv.take(dn as int) == dv);
    let ghost head = lines_view(result@);
    let mut tail = result_data;
    let ghost tail_view = lines_view(tail@);
    result.append(&mut tail);
    assert(lines_view(result@) =~= head + tail_view);
    (result, slots, recoverable_error, abbreviation_references)
}

/// The expansion of every group, carrying the `time=` numerator forward
/// from group to group (4 until the first `time=`).
pub open spec fn expand_all(
    groups: Seq<Seq<(Seq<char>, usize)>>,
    decls: Seq<PartDecl>,
    resolved: Seq<ResolvedGroup>,
    base: usize,
) -> (Seq<Expanded>, u8)
    decreases groups.len(),
{
    if groups.len() == 0 {
        (Seq::empty(), 4u8)
    } else {
        let prev = expand_all(groups.drop_last(), decls, resolved, base);
        let tn = match group_time_numerator(groups.last()) {
            Some(n) => n,
            None => prev.1,
        };
        (prev.0.push(expand_group(groups.last(), decls, resolved, base, tn)), tn)
    }
}

pub open spec fn flatten_refs(s: Seq<Seq<(Seq<char>, Span)>>) -> Seq<(Seq<char>, Span)>
    decreases s.len(),
{
    if s.len() == 0 {
        Seq::empty()
    } else {
        flatten_refs(s.drop_last()) + s.last()
    }
}

pub open spec fn groups_view(groups: Seq<Vec<(String, usize)>>) -> Seq<Seq<(Seq<char>, usize)>> {
    groups.map_values(|g: Vec<(String, usize)>| raw_view(g@))
}

/// What `desugar_groups` returns: per group, its desugared lines, slot
/// list and first recoverable error; and every `[Abbrev]` reference.
pub type DesugarGroupsResult = Result<
    (
        Vec<Vec<SourceLine>>,
        Vec<Vec<ScoreLineSlot>>,
        Vec<Option<RecoverableError>>,
        Vec<AbbreviationReference>,
    ),
    IrrecoverableError,
>;

/// Desugars every measure group (see `expand_group`). Never fails.
pub fn desugar_groups(
    groups: Vec<Vec<(String, usize)>>,
    declarations: &[PartDecl],
    resolved_groups: &[ResolvedGroup],
    base_offset: usize,
) -> (r: DesugarGroupsResult)
    requires
        forall|i: int| 0 <= i < groups@.len() ==> lines_fit(raw_view(#[trigger] groups@[i]@), base_offset),
        base_offset < usize::MAX,
    ensures
        r matches Ok(out) && ({
            let exp = expand_all(groups_view(groups@), declarations@, resolved_groups@, base_offset).0;
            &&& out.0@.len() == groups@.len()
            &&& out.1@.len() == groups@.len()
            &&& out.2@.len() == groups@.len()
            &&& forall|i: int| 0 <= i < groups@.len() ==> lines_view(#[trigger] out.0@[i]@) == exp[i].lines
            &&& forall|i: int| 0 <= i < groups@.len() ==> (#[trigger] out.1@[i])@ == exp[i].slots
            &&& forall|i: int| 0 <= i < groups@.len() ==> opt_err_view(#[trigger] out.2@[i]) == exp[i].error
            &&& refs_view(out.3@) == flatten_refs(exp.map_values(|e: Expanded| e.refs))
        }),
{
    let ghost gv = groups_view(groups@);
    let mut desugared: Vec<Vec<SourceLine>> = Vec::new();
    let mut slots_per_group: Vec<Vec<ScoreLineSlot>> = Vec::new();
    let mut per_group_errors: Vec<Option<RecoverableError>> = Vec::new();
    let mut abbreviation_references: Vec<AbbreviationReference> = Vec::new();
    let mut current_time_num: u8 = 4;
    let n = groups.len();
    for gi in 0..n
        invariant
            n == groups@.len(),
            gv == groups_view(groups@),
            base_offset < usize::MAX,
            forall|i: int| 0 <= i < groups@.len() ==> lines_fit(raw_view(#[trigger] groups@[i]@), base_offset),
            ({
                let st = expand_all(gv.take(gi as int), declarations@, resolved_groups@, base_offset);
                &&& current_time_num == st.1
                &&& desugared@.len() == gi
                &&& slots_per_group@.len() == gi
                &&& per_group_errors@.len() == gi
                &&& st.0.len() == gi
                &&& forall|i: int| 0 <= i < gi ==> lines_view(#[trigger] desugared@[i]@) == st.0[i].lines
                &&& forall|i: int| 0 <= i < gi ==> (#[trigger] slots_per_group@[i])@ == st.0[i].slots
                &&& forall|i: int| 0 <= i < gi ==> opt_err_view(#[trigger] per_group_errors@[i]) == st.0[i].error
                &&& refs_view(abbreviation_references@) == flatten_refs(st.0.map_values(|e: Expanded| e.refs))
            }),
    {
        let ghost prev = expand_all(gv.take(gi as int), declarations@, resolved_groups@, base_offset);
        assert(gv.take(gi + 1).drop_last() == gv.take(gi as int));
        assert(gv.take(gi + 1).last() == gv[gi as int]);
        assert(gv[gi as int] == raw_view(groups@[gi as int]@));
        let group = &groups[gi];
        if let Some(num) = extract_time_numerator(group.as_slice()) {
            current_time_num = num;
        }
        let (expanded, slots, error, references) = expand_measure_group(
            group,
            declarations,
            resolved_groups,
            base_offset,
            current_time_num,
        );
        let ghost next = expand_all(gv.take(gi + 1), declarations@, resolved_groups@, base_offset);
        desugared.push(expanded);
        slots_per_group.push(slots);
        per_group_errors.push(error);
        let ghost rb = abbreviation_references@;
        let mut refs = references;
        let ghost rv = refs_view(refs@);
        abbreviation_references.append(&mut refs);
        assert(refs_view(abbreviation_references@) =~= refs_view(rb) + rv);
        assert(next.0.map_values(|e: Expanded| e.refs).drop_last() =~= prev.0.map_values(|e: Expanded| e.refs));
    }
    assert(gv.take(n as int) == gv);
    Ok((desugared, slots_per_group, per_group_errors, abbreviation_references))
}

proof fn lemma_leading_directives_bounded(lines: Seq<Seq<char>>)
    ensures
        leading_directive_count(lines) <= lines.len(),
    decreases lines.len(),
{
    if lines.len() > 0 && is_directive_line(lines[0]) {
        lemma_leading_directives_bounded(lines.drop_first());
    }
}

/// A desugared measure group keeps its directive lines and binds every other
/// line to exactly one score-line slot; only a group with no attributable
/// data line (reported as such) has data slots without lines.
pub proof fn lemma_group_lines_match_slots(
    group: Seq<(Seq<char>, usize)>,
    decls: Seq<PartDecl>,
    groups: Seq<ResolvedGroup>,
    base: usize,
    time_num: u8,
)
    ensures
        ({
            let e = expand_group(group, decls, groups, base, time_num);
            let dc = leading_directive_count(line_texts(group));
            ||| e.lines.len() == dc + e.slots.len()
            ||| (e.lines.len() == dc && (e.error matches Some(err) && err.kind == RecoverableErrorKind::MeasureNoDataLines))
        }),
{
    let dc = leading_directive_count(line_texts(group)) as int;
    lemma_leading_directives_bounded(line_texts(group));
    assert(group.take(dc).len() == dc);
    let data = group.skip(dc);
    let pad = if data.len() > 0 {
        data.last().1
    } else {
        0
    };
    let a = attr_state(data, decls, base, None);
    if a.keyed.len() > 0 {
        let sp = split_keyed(a.keyed, decls, groups, a.error);
        let m = merged(grouped(sp.part), grouped(sp.group), groups);
        let t = tracks(decls, m, groups, time_num, pad, decls.len());
        resolve::lemma_tracks_aligned(decls, m, groups, time_num, pad, decls.len());
        resolve::lemma_flatten_matches_slots(t.lines, t.roles);
    }
}

/// The `time=` numerator written in group `j`, if any.
pub open spec fn time_in(groups: Seq<Seq<(Seq<char>, usize)>>, j: int) -> Option<u8> {
    group_time_numerator(groups[j])
}

proof fn lemma_expand_all_time(
    groups: Seq<Seq<(Seq<char>, usize)>>,
    decls: Seq<PartDecl>,
    resolved: Seq<ResolvedGroup>,
    base: usize,
)
    ensures
        expand_all(groups, decls, resolved, base).0.len() == groups.len(),
        (forall|j: int| 0 <= j < groups.len() ==> #[trigger] time_in(groups, j) is None) ==> expand_all(
            groups,
            decls,
            resolved,
            base,
        ).1 == 4,
        forall|j: int|
            0 <= j < groups.len() && #[trigger] time_in(groups, j) is Some && (forall|k: int|
                j < k < groups.len() ==> #[trigger] time_in(groups, k) is None) ==> expand_all(
                groups,
                decls,
                resolved,
                base,
            ).1 == time_in(groups, j)->0,
        forall|i: int|
            0 <= i < groups.len() ==> #[trigger] expand_all(groups, decls, resolved, base).0[i] == expand_group(
                groups[i],
                decls,
                resolved,
                base,
                expand_all(groups.take(i + 1), decls, resolved, base).1,
            ),
    decreases groups.len(),
{
    if groups.len() > 0 {
        let prev = groups.drop_last();
        lemma_expand_all_time(prev, decls, resolved, base);
        let n = groups.len() as int;
        assert(groups.take(n) =~= groups);
        assert forall|j: int| 0 <= j < prev.len() implies #[trigger] time_in(prev, j) == time_in(groups, j) by {
            assert(prev[j] == groups[j]);
        }
        if (forall|j: int| 0 <= j < groups.len() ==> #[trigger] time_in(groups, j) is None) {
            assert(time_in(groups, n - 1) is None);
            assert forall|j: int| 0 <= j < prev.len() implies #[trigger] time_in(prev, j) is None by {
                assert(time_in(groups, j) is None);
            }
        }
        assert forall|j: int|
            0 <= j < groups.len() && #[trigger] time_in(groups, j) is Some && (forall|k: int|
                j < k < groups.len() ==> #[trigger] time_in(groups, k) is None) implies expand_all(
            groups,
            decls,
            resolved,
            base,
        ).1 == time_in(groups, j)->0 by {
            if j < n - 1 {
                assert(time_in(groups, n - 1) is None);
                assert(time_in(prev, j) is Some);
                assert forall|k: int| j < k < prev.len() implies #[trigger] time_in(prev, k) is None by {
                    assert(time_in(groups, k) is None);
                }
            }
        }
        assert forall|i: int| 0 <= i < groups.len() implies #[trigger] expand_all(groups, decls, resolved, base).0[i]
            == expand_group(groups[i], decls, resolved, base, expand_all(groups.take(i + 1), decls, resolved, base).1) by {
            if i < n - 1 {
                assert(prev.take(i + 1) =~= groups.take(i + 1));
                assert(prev[i] == groups[i]);
            }
        }
    }
}

/// Each measure group is desugared with the `time=` numerator in force for
/// it: its own, else that of the latest earlier group that has one, else 4.
/// (An absent notes or chord part is filled with that many quarter rests.)
pub proof fn lemma_groups_use_latest_time(
    groups: Seq<Seq<(Seq<char>, usize)>>,
    decls: Seq<PartDecl>,
    resolved: Seq<ResolvedGroup>,
    base: usize,
    i: int,
)
    requires
        0 <= i < groups.len(),
    ensures
        (forall|j: int| 0 <= j <= i ==> #[trigger] time_in(groups, j) is None) ==> expand_all(
            groups,
            decls,
            resolved,
            base,
        ).0[i] == expand_group(groups[i], decls, resolved, base, 4),
        forall|j: int|
            0 <= j <= i && #[trigger] time_in(groups, j) is Some && (forall|k: int|
                j < k <= i ==> #[trigger] time_in(groups, k) is None) ==> expand_all(
                groups,
                decls,
                resolved,
                base,
            ).0[i] == expand_group(groups[i], decls, resolved, base, time_in(groups, j)->0),
{
    lemma_expand_all_time(groups, decls, resolved, base);
    let t = groups.take(i + 1);
    lemma_expand_all_time(t, decls, resolved, base);
    assert forall|j: int| 0 <= j < t.len() implies #[trigger] time_in(t, j) == time_in(groups, j) by {
        assert(t[j] == groups[j]);
    }
    if (forall|j: int| 0 <= j <= i ==> #[trigger] time_in(groups, j) is None) {
        assert forall|j: int| 0 <= j < t.len() implies #[trigger] time_in(t, j) is None by {
            assert(time_in(groups, j) is None);
        }
    }
    assert forall|j: int|
        0 <= j <= i && #[trigger] time_in(groups, j) is Some && (forall|k: int|
            j < k <= i ==> #[trigger] time_in(groups, k) is None) implies expand_all(groups, decls, resolved, base).0[i]
        == expand_group(groups[i], decls, resolved, base, time_in(groups, j)->0) by {
        assert(time_in(t, j) is Some);
        assert forall|k: int| j < k < t.len() implies #[trigger] time_in(t, k) is None by {
            assert(time_in(groups, k) is None);
        }
    }
}

} // verus!
