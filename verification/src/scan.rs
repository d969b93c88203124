//! The scanners: they walk a buffer of characters from a position and are
//! proved to consume exactly what the grammar says stands there.

use vstd::prelude::*;
use vstd::string::{StrSliceExecFns, StringExecFns};
use crate::chars::{escapable_char, is_value_char, label_char, space_char, value_char};
use crate::data::{Entry, Fields};
use crate::grammar::{
    body, comment_len, delimited, entry, entry_head, field_list, key_value, label_comment_len, label_len, label_span,
    line_len, pair_begins, plain_len, run_len, separator_len, space_len, value, Parsed,
};

verus! {

/// Where a parse failed and which character was expected there. The position
/// counts characters from the start of the input.
#[derive(Clone, Copy, Debug, PartialEq, Eq)]
pub struct ParseError {
    pub position: usize,
    pub expected: char,
}

/// A failed parse: recoverable while nothing was committed to, fatal after.
#[derive(Clone, Copy, Debug, PartialEq, Eq)]
pub enum Failure {
    Recoverable(ParseError),
    Fatal(ParseError),
}

/// Whether `r` reports the failure `p`, which the grammar finds on the input
/// that starts at position `pos`.
pub open spec fn fails_as<T, U>(r: Result<U, Failure>, p: Parsed<T>, pos: int) -> bool {
    match p {
        Parsed::Done { .. } => false,
        Parsed::Recoverable { at, expected } => r == Err::<U, Failure>(
            Failure::Recoverable(ParseError { position: (pos + at) as usize, expected }),
        ),
        Parsed::Fatal { at, expected } => r == Err::<U, Failure>(
            Failure::Fatal(ParseError { position: (pos + at) as usize, expected }),
        ),
    }
}

/// Skips whitespace.
pub fn sp(s: &Vec<char>, pos: usize) -> (end: usize)
    requires
        pos <= s.len(),
    ensures
        pos <= end <= s.len(),
        end - pos == space_len(s@.skip(pos as int)),
{
    let mut i: usize = pos;
    while i < s.len() && space_char(s[i])
        invariant
            pos <= i <= s.len(),
            space_len(s@.skip(pos as int)) == (i - pos) + space_len(s@.skip(i as int)),
        decreases s.len() - i,
    {
        proof {
            assert(s@.skip(i as int).skip(1) =~= s@.skip(i + 1));
        }
        i += 1;
    }
    i
}

/// Scans a label: the longest run of label characters, which may be empty.
pub fn alphabeticlabel(s: &Vec<char>, pos: usize) -> (end: usize)
    requires
        pos <= s.len(),
    ensures
        pos <= end <= s.len(),
        end - pos == label_len(s@.skip(pos as int)),
{
    let mut i: usize = pos;
    while i < s.len() && label_char(s[i])
        invariant
            pos <= i <= s.len(),
            label_len(s@.skip(pos as int)) == (i - pos) + label_len(s@.skip(i as int)),
        decreases s.len() - i,
    {
        proof {
            assert(s@.skip(i as int).skip(1) =~= s@.skip(i + 1));
        }
        i += 1;
    }
    i
}

/// Scans value characters as far as they go, escapes left aside.
pub fn alphanumericplus(s: &Vec<char>, pos: usize) -> (end: usize)
    requires
        pos <= s.len(),
    ensures
        pos <= end <= s.len(),
        end - pos == plain_len(s@.skip(pos as int)),
        end < s.len() ==> !is_value_char(s@[end as int]),
{
    let mut i: usize = pos;
    while i < s.len() && value_char(s[i])
        invariant
            pos <= i <= s.len(),
            plain_len(s@.skip(pos as int)) == (i - pos) + plain_len(s@.skip(i as int)),
        decreases s.len() - i,
    {
        proof {
            assert(s@.skip(i as int).skip(1) =~= s@.skip(i + 1));
        }
        i += 1;
    }
    i
}

/// A value run starts with the value characters at its front and goes on
/// from where they end.
pub proof fn lemma_run_takes_plain(r: Seq<char>)
    ensures
        plain_len(r) <= r.len(),
        run_len(r) == plain_len(r) + run_len(r.skip(plain_len(r) as int)),
    decreases r.len(),
{
    if r.len() > 0 && is_value_char(r[0]) {
        lemma_run_takes_plain(r.skip(1));
        assert(r.skip(1).skip(plain_len(r.skip(1)) as int) =~= r.skip(plain_len(r) as int));
    } else {
        assert(r.skip(0) =~= r);
    }
}

/// Scans one value run: value characters and escapes, as far as they go. A
/// backslash is taken only together with the escapable character behind it.
pub fn parse_str(s: &Vec<char>, pos: usize) -> (end: usize)
    requires
        pos <= s.len(),
    ensures
        pos <= end <= s.len(),
        end - pos == run_len(s@.skip(pos as int)),
{
    let mut i: usize = pos;
    let mut open: bool = true;
    while open
        invariant
            pos <= i <= s.len(),
            run_len(s@.skip(pos as int)) == (i - pos) + run_len(s@.skip(i as int)),
            !open ==> run_len(s@.skip(i as int)) == 0,
        decreases s.len() - i + (if open { 1int } else { 0int }),
    {
        let j = alphanumericplus(s, i);
        proof {
            lemma_run_takes_plain(s@.skip(i as int));
            assert(s@.skip(i as int).skip(j - i) =~= s@.skip(j as int));
        }
        if j < s.len() && s.len() - j > 1 && s[j] == '\\' && escapable_char(s[j + 1]) {
            proof {
                assert(s@.skip(j as int).skip(2) =~= s@.skip(j + 2));
            }
            i = j + 2;
        } else {
            i = j;
            open = false;
        }
    }
    i
}

/// Eats a comment: a `#`, the rest of its line and the newline. Gives the
/// position after the newline, or `None` where no comment stands.
pub fn eolcomment(s: &Vec<char>, pos: usize) -> (end: Option<usize>)
    requires
        pos <= s.len(),
    ensures
        match comment_len(s@.skip(pos as int)) {
            Some(c) => end == Some((pos + c) as usize) && pos + c <= s.len(),
            None => end.is_none(),
        },
{
    if pos < s.len() && s[pos] == '#' {
        let start: usize = pos + 1;
        let mut i: usize = start;
        proof {
            assert(s@.skip(pos as int).skip(1) =~= s@.skip(start as int));
        }
        while i < s.len() && s[i] != '\n'
            invariant
                start <= i <= s.len(),
                line_len(s@.skip(start as int)) == match line_len(s@.skip(i as int)) {
                    Some(n) => Some((n + i - start) as nat),
                    None => None,
                },
            decreases s.len() - i,
        {
            proof {
                assert(s@.skip(i as int).skip(1) =~= s@.skip(i + 1));
            }
            i += 1;
        }
        if i < s.len() {
            Some(i + 1)
        } else {
            None
        }
    } else {
        None
    }
}

/// Scans a label and the comment that may directly follow it. Gives where the
/// label ends and where the scan ends.
pub fn alphabeticlabel_comment(s: &Vec<char>, pos: usize) -> (ends: (usize, usize))
    requires
        pos <= s.len(),
    ensures
        pos <= ends.0 <= ends.1 <= s.len(),
        ends.0 - pos == label_len(s@.skip(pos as int)),
        ends.1 - pos == label_comment_len(s@.skip(pos as int)),
{
    let label_end = alphabeticlabel(s, pos);
    proof {
        assert(s@.skip(pos as int).skip(label_end - pos) =~= s@.skip(label_end as int));
    }
    match eolcomment(s, label_end) {
        Some(end) => (label_end, end),
        None => (label_end, label_end),
    }
}

/// Scans a label with the comment and the whitespace that may follow it.
/// Gives where the label ends and where the scan ends.
pub fn label_at(s: &Vec<char>, pos: usize) -> (ends: (usize, usize))
    requires
        pos <= s.len(),
    ensures
        pos <= ends.0 <= ends.1 <= s.len(),
        ends.0 - pos == label_len(s@.skip(pos as int)),
        ends.1 - pos == label_span(s@.skip(pos as int)),
{
    let (label_end, after) = alphabeticlabel_comment(s, pos);
    proof {
        assert(s@.skip(pos as int).skip(after - pos) =~= s@.skip(after as int));
    }
    let end = sp(s, after);
    (label_end, end)
}

/// Assembles the body of a string: the runs from `pos` on, joined as they
/// stand, with the comments between them left out. Gives where the body ends
/// and the assembled value.
pub fn assemble(i: &str, s: &Vec<char>, pos: usize) -> (r: (usize, String))
    requires
        s@ == i@,
        pos <= s.len(),
    ensures
        pos <= r.0 <= s.len(),
        r.0 - pos == body(s@.skip(pos as int)).1,
        r.1@ == body(s@.skip(pos as int)).0,
{
    let mut text = String::new();
    let mut at: usize = pos;
    let mut open: bool = true;
    while open
        invariant
            s@ == i@,
            pos <= at <= s.len(),
            open ==> body(s@.skip(pos as int)).0 == text@ + body(s@.skip(at as int)).0,
            open ==> body(s@.skip(pos as int)).1 == (at - pos) + body(s@.skip(at as int)).1,
            !open ==> body(s@.skip(pos as int)).0 == text@,
            !open ==> body(s@.skip(pos as int)).1 == at - pos,
        decreases s.len() - at + (if open { 1int } else { 0int }),
    {
        let run_end = parse_str(s, at);
        let ghost before = text@;
        let ghost rest = s@.skip(at as int);
        text.append(i.substring_char(at, run_end));
        proof {
            assert(rest.take(run_end - at) =~= s@.subrange(at as int, run_end as int));
            assert(rest.skip(run_end - at) =~= s@.skip(run_end as int));
        }
        match eolcomment(s, run_end) {
            Some(next) => {
                proof {
                    assert(rest.skip(next - at) =~= s@.skip(next as int));
                    assert(before + (rest.take(run_end - at) + body(s@.skip(next as int)).0)
                        =~= text@ + body(s@.skip(next as int)).0);
                }
                at = next;
            },
            None => {
                proof {
                    assert(before + rest.take(run_end - at) =~= text@);
                }
                at = run_end;
                open = false;
            },
        }
    }
    (at, text)
}

/// Parses a string between `open` and `close` at `pos`.
pub fn string_between(i: &str, s: &Vec<char>, pos: usize, open: char, close: char) -> (r: Result<
    (usize, String),
    Failure,
>)
    requires
        s@ == i@,
        pos <= s.len(),
    ensures
        match delimited(s@.skip(pos as int), open, close) {
            Parsed::Done { consumed, value } => r.is_ok() && r.unwrap().0 == pos + consumed
                && r.unwrap().0 <= s.len() && r.unwrap().1@ == value,
            other => fails_as(r, other, pos as int),
        },
{
    if pos < s.len() && s[pos] == open {
        proof {
            assert(s@.skip(pos as int).skip(1) =~= s@.skip(pos + 1));
        }
        let (end, text) = assemble(i, s, pos + 1);
        if end < s.len() && s[end] == close {
            Ok((end + 1, text))
        } else {
            Err(Failure::Fatal(ParseError { position: end, expected: close }))
        }
    } else {
        Err(Failure::Recoverable(ParseError { position: pos, expected: open }))
    }
}

/// Parses a string in double quotes, which may run over several lines.
pub fn string_spm(i: &str, s: &Vec<char>, pos: usize) -> (r: Result<(usize, String), Failure>)
    requires
        s@ == i@,
        pos <= s.len(),
    ensures
        match delimited(s@.skip(pos as int), '"', '"') {
            Parsed::Done { consumed, value } => r.is_ok() && r.unwrap().0 == pos + consumed
                && r.unwrap().0 <= s.len() && r.unwrap().1@ == value,
            other => fails_as(r, other, pos as int),
        },
{
    string_between(i, s, pos, '"', '"')
}

/// Parses a string in braces, which may run over several lines.
pub fn string_brc(i: &str, s: &Vec<char>, pos: usize) -> (r: Result<(usize, String), Failure>)
    requires
        s@ == i@,
        pos <= s.len(),
    ensures
        match delimited(s@.skip(pos as int), '{', '}') {
            Parsed::Done { consumed, value } => r.is_ok() && r.unwrap().0 == pos + consumed
                && r.unwrap().0 <= s.len() && r.unwrap().1@ == value,
            other => fails_as(r, other, pos as int),
        },
{
    string_between(i, s, pos, '{', '}')
}

/// Parses a value: a string in double quotes or, where none opens, in braces.
pub fn string_value(i: &str, s: &Vec<char>, pos: usize) -> (r: Result<(usize, String), Failure>)
    requires
        s@ == i@,
        pos <= s.len(),
    ensures
        match value(s@.skip(pos as int)) {
            Parsed::Done { consumed, value } => r.is_ok() && r.unwrap().0 == pos + consumed
                && r.unwrap().0 <= s.len() && r.unwrap().1@ == value,
            other => fails_as(r, other, pos as int),
        },
{
    match string_spm(i, s, pos) {
        Err(Failure::Recoverable(_)) => string_brc(i, s, pos),
        other => other,
    }
}

/// Parses a pair at `pos`: a label, `=` and a value, with whitespace before
/// each. Gives where the pair ends, its label and its value.
pub fn key_value_at(i: &str, s: &Vec<char>, pos: usize) -> (r: Result<
    (usize, (String, String)),
    Failure,
>)
    requires
        s@ == i@,
        pos <= s.len(),
    ensures
        match key_value(s@.skip(pos as int)) {
            Parsed::Done { consumed, value } => r.is_ok() && r.unwrap().0 == pos + consumed
                && r.unwrap().0 <= s.len() && r.unwrap().1.0@ == value.0 && r.unwrap().1.1@
                == value.1,
            other => fails_as(r, other, pos as int),
        },
{
    proof {
        reveal(key_value);
    }
    let ghost rest = s@.skip(pos as int);
    let start = sp(s, pos);
    proof {
        assert(rest.skip(start - pos) =~= s@.skip(start as int));
    }
    let (label_end, equals) = label_at(s, start);
    if equals < s.len() && s[equals] == '=' {
        proof {
            assert(rest.skip(equals - pos + 1) =~= s@.skip(equals + 1));
        }
        let opening = sp(s, equals + 1);
        proof {
            assert(rest.skip(opening - pos) =~= s@.skip(opening as int));
            assert(rest.subrange(start - pos, label_end - pos) =~= s@.subrange(
                start as int,
                label_end as int,
            ));
        }
        match string_value(i, s, opening) {
            Ok((end, text)) => {
                let label = String::from_str(i.substring_char(start, label_end));
                Ok((end, (label, text)))
            },
            Err(e) => Err(e),
        }
    } else {
        Err(Failure::Fatal(ParseError { position: equals, expected: '=' }))
    }
}

/// Whether a pair begins at `pos`.
pub fn pair_begins_at(s: &Vec<char>, pos: usize) -> (r: bool)
    requires
        pos <= s.len(),
    ensures
        r == pair_begins(s@.skip(pos as int)),
{
    proof {
        reveal(pair_begins);
    }
    let ghost rest = s@.skip(pos as int);
    let start = sp(s, pos);
    proof {
        assert(rest.skip(start - pos) =~= s@.skip(start as int));
    }
    let (label_end, equals) = label_at(s, start);
    label_end > start || (equals < s.len() && s[equals] == '=')
}

/// Eats a separator: whitespace, a comma, and the comment that may follow the
/// comma after more whitespace. Gives the position after it, or `None` where
/// no comma stands.
pub fn separator_at(s: &Vec<char>, pos: usize) -> (end: Option<usize>)
    requires
        pos <= s.len(),
    ensures
        match separator_len(s@.skip(pos as int)) {
            Some(n) => end == Some((pos + n) as usize) && n > 0 && pos + n <= s.len(),
            None => end.is_none(),
        },
{
    proof {
        reveal(separator_len);
    }
    let ghost rest = s@.skip(pos as int);
    let comma = sp(s, pos);
    if comma < s.len() && s[comma] == ',' {
        proof {
            assert(rest.skip(comma - pos + 1) =~= s@.skip(comma + 1));
        }
        let after = sp(s, comma + 1);
        proof {
            assert(rest.skip(after - pos) =~= s@.skip(after as int));
        }
        match eolcomment(s, after) {
            Some(end) => Some(end),
            None => Some(comma + 1),
        }
    } else {
        None
    }
}

/// Parses the field list at `pos` and folds it into `fields`. Gives where the
/// list ends, trailing whitespace included, and the mapping.
pub fn kvlist_into(i: &str, s: &Vec<char>, pos: usize, fields: Fields) -> (r: Result<
    (usize, Fields),
    Failure,
>)
    requires
        s@ == i@,
        pos <= s.len(),
    ensures
        match field_list(s@.skip(pos as int), fields@) {
            Parsed::Done { consumed, value } => r.is_ok() && r.unwrap().0 == pos + consumed
                && r.unwrap().0 <= s.len() && r.unwrap().1@ == value,
            other => fails_as(r, other, pos as int),
        },
    decreases s.len() - pos,
{
    proof {
        reveal(field_list);
    }
    let ghost rest = s@.skip(pos as int);
    if !pair_begins_at(s, pos) {
        let end = sp(s, pos);
        return Ok((end, fields));
    }
    match key_value_at(i, s, pos) {
        Err(Failure::Recoverable(e)) => Err(Failure::Fatal(e)),
        Err(e) => Err(e),
        Ok((end, (label, text))) => {
            let mut fields = fields;
            fields.insert(label, text);
            proof {
                assert(rest.skip(end - pos) =~= s@.skip(end as int));
            }
            match separator_at(s, end) {
                Some(next) => {
                    proof {
                        assert(rest.skip(next - pos) =~= s@.skip(next as int));
                    }
                    kvlist_into(i, s, next, fields)
                },
                None => {
                    let end = sp(s, end);
                    Ok((end, fields))
                },
            }
        },
    }
}

/// Parses the field list at `pos` into a mapping. Gives where the list ends,
/// trailing whitespace included, and the mapping.
pub fn kvlist_at(i: &str, s: &Vec<char>, pos: usize) -> (r: Result<(usize, Fields), Failure>)
    requires
        s@ == i@,
        pos <= s.len(),
    ensures
        match field_list(s@.skip(pos as int), Map::empty()) {
            Parsed::Done { consumed, value } => r.is_ok() && r.unwrap().0 == pos + consumed
                && r.unwrap().0 <= s.len() && r.unwrap().1@ == value,
            other => fails_as(r, other, pos as int),
        },
{
    kvlist_into(i, s, pos, Fields::new())
}

/// Parses the head of an entry at `pos`: `@`, the type label, `{`, the
/// citation key and `,`. Gives where the field list starts and the two labels.
pub fn entry_head_at(i: &str, s: &Vec<char>, pos: usize) -> (r: Result<
    (usize, (String, String)),
    Failure,
>)
    requires
        s@ == i@,
        pos <= s.len(),
    ensures
        match entry_head(s@.skip(pos as int)) {
            Parsed::Done { consumed, value } => r.is_ok() && r.unwrap().0 == pos + consumed
                && r.unwrap().0 <= s.len() && r.unwrap().1.0@ == value.0 && r.unwrap().1.1@
                == value.1,
            other => fails_as(r, other, pos as int),
        },
{
    proof {
        reveal(entry_head);
    }
    let ghost rest = s@.skip(pos as int);
    let at_sign = sp(s, pos);
    if !(at_sign < s.len() && s[at_sign] == '@') {
        return Err(Failure::Recoverable(ParseError { position: at_sign, expected: '@' }));
    }
    let type_start: usize = at_sign + 1;
    proof {
        assert(rest.skip(type_start - pos) =~= s@.skip(type_start as int));
    }
    let (type_end, brace) = label_at(s, type_start);
    if !(brace < s.len() && s[brace] == '{') {
        return Err(Failure::Fatal(ParseError { position: brace, expected: '{' }));
    }
    proof {
        assert(rest.skip(brace - pos + 1) =~= s@.skip(brace + 1));
    }
    let key_start = sp(s, brace + 1);
    proof {
        assert(rest.skip(key_start - pos) =~= s@.skip(key_start as int));
    }
    let (key_end, comma) = label_at(s, key_start);
    if !(comma < s.len() && s[comma] == ',') {
        return Err(Failure::Fatal(ParseError { position: comma, expected: ',' }));
    }
    proof {
        assert(rest.subrange(type_start - pos, type_end - pos) =~= s@.subrange(
            type_start as int,
            type_end as int,
        ));
        assert(rest.subrange(key_start - pos, key_end - pos) =~= s@.subrange(
            key_start as int,
            key_end as int,
        ));
    }
    let type_label = String::from_str(i.substring_char(type_start, type_end));
    let citation_key = String::from_str(i.substring_char(key_start, key_end));
    Ok((comma + 1, (type_label, citation_key)))
}

/// Parses an entry at `pos`. Gives where the entry ends, just after its
/// closing brace, and the entry.
pub fn bibentry_at(i: &str, s: &Vec<char>, pos: usize) -> (r: Result<(usize, Entry), Failure>)
    requires
        s@ == i@,
        pos <= s.len(),
    ensures
        match entry(s@.skip(pos as int)) {
            Parsed::Done { consumed, value } => r.is_ok() && r.unwrap().0 == pos + consumed
                && r.unwrap().0 <= s.len() && r.unwrap().1@ == value,
            other => fails_as(r, other, pos as int),
        },
{
    let ghost rest = s@.skip(pos as int);
    match entry_head_at(i, s, pos) {
        Err(e) => Err(e),
        Ok((start, (type_label, citation_key))) => {
            proof {
                assert(rest.skip(start - pos) =~= s@.skip(start as int));
            }
            match kvlist_at(i, s, start) {
                Err(Failure::Recoverable(e)) => Err(Failure::Fatal(e)),
                Err(e) => Err(e),
                Ok((end, fields)) => {
                    if end < s.len() && s[end] == '}' {
                        Ok((end + 1, Entry { type_label, citation_key, fields }))
                    } else {
                        Err(Failure::Fatal(ParseError { position: end, expected: '}' }))
                    }
                },
            }
        },
    }
}

} // verus!
