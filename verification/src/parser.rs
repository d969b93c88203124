//! The parsers on text: each takes the input, parses the construct at its
//! front and gives the remaining input with the result.

use vstd::prelude::*;
use vstd::std_specs::iter::IteratorSpec;
use vstd::string::StrSliceExecFns;
use crate::data::{Entry, Fields};
use crate::grammar::{body, entry, field_list, Parsed};
use crate::scan::{assemble, bibentry_at, fails_as, key_value_at, kvlist_at, Failure};

verus! {

/// The characters of `i`, in a buffer that can be indexed.
pub fn characters(i: &str) -> (chars: Vec<char>)
    ensures
        chars@ == i@,
{
    let mut it = i.chars();
    let mut chars: Vec<char> = Vec::new();
    let mut more: bool = true;
    while more
        invariant
            chars@ + it.remaining() == i@,
            !more ==> it.remaining().len() == 0,
        decreases i@.len() - chars@.len() + (if more { 1int } else { 0int }),
    {
        let ghost before = it.remaining();
        match it.next() {
            Some(c) => {
                proof {
                    assert(before =~= seq![c] + it.remaining());
                    assert(chars@.push(c) + it.remaining() =~= chars@ + before);
                }
                chars.push(c);
            },
            None => {
                more = false;
            },
        }
    }
    proof {
        assert(chars@ =~= chars@ + it.remaining());
    }
    chars
}

/// Assembles the string body at the front of `i`: its runs joined as they
/// stand, without the comments between them. It succeeds on every input; the
/// body may be empty. Gives the remaining input and the assembled value.
pub fn parse_str_with_comments<'a>(i: &'a str) -> (r: Result<(&'a str, String), Failure>)
    ensures
        r.is_ok(),
        r.unwrap().0@ == i@.skip(body(i@).1 as int),
        r.unwrap().1@ == body(i@).0,
{
    let s = characters(i);
    proof {
        assert(s@.skip(0) =~= s@);
    }
    let (end, text) = assemble(i, &s, 0);
    let rest = i.substring_char(end, s.len());
    Ok((rest, text))
}

/// Parses the pair `label = "value"` or `label = {value}` at the front of `i`.
/// Gives the remaining input, the label and the assembled value. A missing
/// `=` is fatal, and so is a string that does not close; a value that does not
/// open is recoverable.
pub fn key_value<'a>(i: &'a str) -> (r: Result<(&'a str, (String, String)), Failure>)
    ensures
        match crate::grammar::key_value(i@) {
            Parsed::Done { consumed, value } => r.is_ok() && r.unwrap().0@ == i@.skip(
                consumed as int,
            ) && r.unwrap().1.0@ == value.0 && r.unwrap().1.1@ == value.1,
            other => fails_as(r, other, 0),
        },
{
    let s = characters(i);
    proof {
        assert(s@.skip(0) =~= s@);
    }
    match key_value_at(i, &s, 0) {
        Ok((end, pair)) => Ok((i.substring_char(end, s.len()), pair)),
        Err(e) => Err(e),
    }
}

/// Parses the field list at the front of `i`: pairs separated by commas, a
/// comma that may follow the last pair, and trailing whitespace. Gives the
/// remaining input and the mapping from labels to values, in which a later
/// pair has replaced an earlier one of the same label. Every failure is fatal.
pub fn kvlist<'a>(i: &'a str) -> (r: Result<(&'a str, Fields), Failure>)
    ensures
        match field_list(i@, Map::empty()) {
            Parsed::Done { consumed, value } => r.is_ok() && r.unwrap().0@ == i@.skip(
                consumed as int,
            ) && r.unwrap().1@ == value,
            other => fails_as(r, other, 0),
        },
{
    let s = characters(i);
    proof {
        assert(s@.skip(0) =~= s@);
    }
    match kvlist_at(i, &s, 0) {
        Ok((end, fields)) => Ok((i.substring_char(end, s.len()), fields)),
        Err(e) => Err(e),
    }
}

/// Parses one entry, `@type{key, label = value, ...}`, at the front of `i`,
/// after whitespace. Gives the remaining input, which starts just after the
/// closing brace, and the entry. A missing `@` is recoverable; every failure
/// after it is fatal.
pub fn parse_entry<'a>(i: &'a str) -> (r: Result<(&'a str, Entry), Failure>)
    ensures
        match entry(i@) {
            Parsed::Done { consumed, value } => r.is_ok() && r.unwrap().0@ == i@.skip(
                consumed as int,
            ) && r.unwrap().1@ == value,
            other => fails_as(r, other, 0),
        },
{
    let s = characters(i);
    proof {
        assert(s@.skip(0) =~= s@);
    }
    match bibentry_at(i, &s, 0) {
        Ok((end, found)) => Ok((i.substring_char(end, s.len()), found)),
        Err(e) => Err(e),
    }
}

/// Parses one entry as `parse_entry` does, and gives its type label, its
/// citation key and its fields apart.
pub fn bibentry<'a>(i: &'a str) -> (r: Result<(&'a str, (String, String, Fields)), Failure>)
    ensures
        match entry(i@) {
            Parsed::Done { consumed, value } => r.is_ok() && r.unwrap().0@ == i@.skip(
                consumed as int,
            ) && r.unwrap().1.0@ == value.type_label && r.unwrap().1.1@ == value.citation_key
                && r.unwrap().1.2@ == value.fields,
            other => fails_as(r, other, 0),
        },
{
    match parse_entry(i) {
        Ok((rest, found)) => Ok((rest, (found.type_label, found.citation_key, found.fields))),
        Err(e) => Err(e),
    }
}

} // verus!
