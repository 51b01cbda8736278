//! The `[Key] content` prefix of a score line: splitting it off, and the
//! byte spans of the whole bracketed prefix and of the abbreviation inside.

use crate::error::Span;
use crate::text::{
    byte_len, chars_of, find_char, first_index, lemma_byte_len_at_least_len, lemma_byte_len_concat,
    lemma_byte_len_subrange, lemma_trim_byte_len, str_trim, str_trim_start, trim, trim_start,
};
use vstd::prelude::*;

verus! {

/// `[Key] content` split into the trimmed key and the trimmed content.
pub open spec fn key_prefix(s: Seq<char>) -> Option<(Seq<char>, Seq<char>)> {
    if s.len() > 0 && s[0] == '[' {
        let rest = s.drop_first();
        match first_index(rest, ']') {
            Some(i) => Some((trim(rest.take(i)), trim(rest.skip(i + 1)))),
            None => None,
        }
    } else {
        None
    }
}

/// The key and the content of a `[Key] content` line are no longer, in
/// bytes, than the line.
pub proof fn lemma_key_prefix_byte_len(s: Seq<char>)
    requires
        key_prefix(s) is Some,
    ensures
        key_prefix(s) matches Some(p) ==> byte_len(p.0) <= byte_len(s) && byte_len(p.1) <= byte_len(
            s,
        ),
{
    let rest = s.drop_first();
    let i = first_index(rest, ']')->0;
    assert(rest.take(i) == s.subrange(1, i + 1));
    assert(rest.skip(i + 1) == s.subrange(i + 2, s.len() as int));
    lemma_byte_len_subrange(s, 1, i + 1);
    lemma_byte_len_subrange(s, i + 2, s.len() as int);
    lemma_trim_byte_len(rest.take(i));
    lemma_trim_byte_len(rest.skip(i + 1));
}

/// Splits `[Key] content` into the trimmed key and the trimmed content.
pub fn parse_key_prefix(line: &str) -> (r: Option<(&str, &str)>)
    ensures
        r is None <==> key_prefix(line@) is None,
        r matches Some(p) ==> key_prefix(line@) == Some((p.0@, p.1@)),
{
    let v = chars_of(line);
    if v.len() == 0 || v[0] != '[' {
        return None;
    }
    let rest = line.substring_char(1, v.len());
    assert(rest@ == line@.drop_first());
    let rv = chars_of(rest);
    match find_char(&rv, ']') {
        Some(i) => {
            let key = str_trim(rest.substring_char(0, i));
            let content = str_trim(rest.substring_char(i + 1, rv.len()));
            assert(rest@.subrange(0, i as int) == rest@.take(i as int));
            assert(rest@.subrange(i + 1, rv@.len() as int) == rest@.skip(i + 1));
            Some((key, content))
        },
        None => None,
    }
}

/// Byte length of the `[Key]` prefix: through the first `]`, or (with no
/// `]`) at most one byte.
pub open spec fn key_prefix_end(s: Seq<char>) -> nat {
    match first_index(s, ']') {
        Some(i) => byte_len(s.take(i)) + 1,
        None => if byte_len(s) < 1 {
            byte_len(s)
        } else {
            1
        },
    }
}

/// The no-overflow condition for a line at `offset` under `base`.
pub open spec fn line_fits(s: Seq<char>, offset: usize, base: usize) -> bool {
    base + offset + byte_len(s) + 1 <= usize::MAX
}

pub open spec fn key_prefix_span(s: Seq<char>, offset: usize, base: usize) -> Span {
    Span {
        start: (base + offset) as usize,
        end: (base + offset + key_prefix_end(s)) as usize,
    }
}

proof fn lemma_key_prefix_end_bound(s: Seq<char>)
    ensures
        key_prefix_end(s) <= byte_len(s),
{
    if let Some(i) = first_index(s, ']') {
        lemma_byte_len_subrange(s, i, i + 1);
        lemma_byte_len_at_least_len(s.subrange(i, i + 1));
    }
}

/// Span of the bracketed `[Key]` prefix of `line`.
pub fn key_prefix_span_in_line(line: &str, line_offset: usize, base_offset: usize) -> (s: Span)
    requires
        line_fits(line@, line_offset, base_offset),
    ensures
        s == key_prefix_span(line@, line_offset, base_offset),
{
    let v = chars_of(line);
    proof {
        lemma_key_prefix_end_bound(line@);
    }
    let end = match find_char(&v, ']') {
        Some(index) => {
            let head = line.substring_char(0, index);
            assert(head@ == line@.take(index as int));
            head.len() + 1
        },
        None => {
            let n = line.len();
            if n < 1 {
                n
            } else {
                1
            }
        },
    };
    Span::new(base_offset + line_offset, base_offset + line_offset + end)
}

/// Span of just the trimmed abbreviation inside a `[Key]` prefix.
pub open spec fn key_span(s: Seq<char>, offset: usize, base: usize) -> Option<Span> {
    if s.len() > 0 && s[0] == '[' {
        let rest = s.drop_first();
        match first_index(rest, ']') {
            Some(i) => {
                let raw = rest.take(i);
                let start = base + offset + 1 + (byte_len(raw) - byte_len(trim_start(raw)));
                Some(Span { start: start as usize, end: (start + byte_len(trim(raw))) as usize })
            },
            None => None,
        }
    } else {
        None
    }
}

proof fn lemma_key_raw_bound(s: Seq<char>, i: int)
    requires
        s.len() > 0,
        0 <= i < s.drop_first().len(),
    ensures
        1 + byte_len(s.drop_first().take(i)) <= byte_len(s),
{
    let rest = s.drop_first();
    assert(s == s.take(1) + rest);
    lemma_byte_len_concat(s.take(1), rest);
    lemma_byte_len_at_least_len(s.take(1));
    lemma_byte_len_subrange(rest, 0, i);
    assert(rest.subrange(0, i) == rest.take(i));
}

/// Span of the trimmed abbreviation inside `line`'s `[Key]` prefix, when it has one.
pub fn key_span_in_line(line: &str, line_offset: usize, base_offset: usize) -> (r: Option<Span>)
    requires
        line_fits(line@, line_offset, base_offset),
    ensures
        r == key_span(line@, line_offset, base_offset),
{
    let v = chars_of(line);
    if v.len() == 0 || v[0] != '[' {
        return None;
    }
    let inner = line.substring_char(1, v.len());
    let iv = chars_of(inner);
    let close = match find_char(&iv, ']') {
        Some(c) => c,
        None => {
            return None;
        },
    };
    let raw_key = inner.substring_char(0, close);
    assert(raw_key@ == line@.drop_first().take(close as int));
    proof {
        lemma_trim_byte_len(raw_key@);
        lemma_key_raw_bound(line@, close as int);
    }
    let leading_ws = raw_key.len() - str_trim_start(raw_key).len();
    let trimmed = str_trim(raw_key);
    let key_start = base_offset + line_offset + 1 + leading_ws;
    Some(Span::new(key_start, key_start + trimmed.len()))
}

} // verus!
