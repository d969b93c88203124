//! The grammar, as specification functions over the remaining input.
//!
//! Every function here takes what is left of the input and says how many
//! characters the construct at its front consumes, and what it yields.

use vstd::prelude::*;
use crate::chars::{is_escapable, is_label_char, is_space, is_value_char};

verus! {

/// What a parser of the grammar yields on some remaining input.
pub enum Parsed<T> {
    /// The construct stood at the front; `consumed` characters belong to it.
    Done { consumed: nat, value: T },
    /// Nothing was committed to; another branch may be tried.
    Recoverable { at: nat, expected: char },
    /// A delimiter or separator had been matched; the parse is over.
    Fatal { at: nat, expected: char },
}

impl<T> Parsed<T> {
    /// The same outcome, seen from `n` characters earlier in the input.
    pub open spec fn shift(self, n: nat) -> Parsed<T> {
        match self {
            Parsed::Done { consumed, value } => Parsed::Done { consumed: n + consumed, value },
            Parsed::Recoverable { at, expected } => Parsed::Recoverable { at: n + at, expected },
            Parsed::Fatal { at, expected } => Parsed::Fatal { at: n + at, expected },
        }
    }

    /// The same outcome with a recoverable failure made fatal.
    pub open spec fn commit(self) -> Parsed<T> {
        match self {
            Parsed::Recoverable { at, expected } => Parsed::Fatal { at, expected },
            other => other,
        }
    }
}

/// Whether character `c` stands at offset `at` of `r`.
pub open spec fn has_char(r: Seq<char>, at: nat, c: char) -> bool {
    at < r.len() && r[at as int] == c
}

/// The length of the whitespace at the front of `r`.
pub open spec fn space_len(r: Seq<char>) -> nat
    decreases r.len(),
{
    if r.len() > 0 && is_space(r[0]) {
        1 + space_len(r.skip(1))
    } else {
        0
    }
}

/// The length of the longest run of label characters at the front of `r`.
pub open spec fn label_len(r: Seq<char>) -> nat
    decreases r.len(),
{
    if r.len() > 0 && is_label_char(r[0]) {
        1 + label_len(r.skip(1))
    } else {
        0
    }
}

/// The length of the longest run of value characters at the front of `r`.
pub open spec fn plain_len(r: Seq<char>) -> nat
    decreases r.len(),
{
    if r.len() > 0 && is_value_char(r[0]) {
        1 + plain_len(r.skip(1))
    } else {
        0
    }
}

/// The length of the longest value run at the front of `r`: value characters,
/// and backslashes followed by an escapable character, which are taken in pairs.
pub open spec fn run_len(r: Seq<char>) -> nat
    decreases r.len(),
{
    if r.len() > 0 && is_value_char(r[0]) {
        1 + run_len(r.skip(1))
    } else if r.len() > 1 && r[0] == '\\' && is_escapable(r[1]) {
        2 + run_len(r.skip(2))
    } else {
        0
    }
}

/// The number of characters before the first newline of `r`, if it has one.
pub open spec fn line_len(r: Seq<char>) -> Option<nat>
    decreases r.len(),
{
    if r.len() == 0 {
        None
    } else if r[0] == '\n' {
        Some(0)
    } else {
        match line_len(r.skip(1)) {
            Some(n) => Some(n + 1),
            None => None,
        }
    }
}

/// The length of the comment at the front of `r`: a `#`, the rest of the line
/// and its newline. There is none where no `#` stands or no newline follows.
pub open spec fn comment_len(r: Seq<char>) -> Option<nat> {
    if has_char(r, 0, '#') {
        match line_len(r.skip(1)) {
            Some(n) => Some(n + 2),
            None => None,
        }
    } else {
        None
    }
}

/// The length of a label together with the comment that may directly follow it.
pub open spec fn label_comment_len(r: Seq<char>) -> nat {
    let n = label_len(r);
    match comment_len(r.skip(n as int)) {
        Some(c) => n + c,
        None => n,
    }
}

/// The body of a string at the front of `r`: the assembled value and the
/// number of characters it spans. Runs are joined as they stand; the comments
/// between them leave nothing behind.
pub open spec fn body(r: Seq<char>) -> (Seq<char>, nat)
    decreases r.len(),
{
    let n = run_len(r);
    let c = comment_len(r.skip(n as int));
    if c is Some && n + c->0 <= r.len() {
        let rest = body(r.skip((n + c->0) as int));
        (r.take(n as int) + rest.0, n + c->0 + rest.1)
    } else {
        (r.take(n as int), n)
    }
}

/// A string between `open` and `close`. A missing opening delimiter is
/// recoverable; once it is matched, a missing closing delimiter is fatal.
pub open spec fn delimited(r: Seq<char>, open: char, close: char) -> Parsed<Seq<char>> {
    if !has_char(r, 0, open) {
        Parsed::Recoverable { at: 0, expected: open }
    } else {
        let b = body(r.skip(1));
        if has_char(r, 1 + b.1, close) {
            Parsed::Done { consumed: b.1 + 2, value: b.0 }
        } else {
            Parsed::Fatal { at: 1 + b.1, expected: close }
        }
    }
}

/// A value: a string in double quotes or, where no quote opens one, in braces.
pub open spec fn value(r: Seq<char>) -> Parsed<Seq<char>> {
    match delimited(r, '"', '"') {
        Parsed::Recoverable { .. } => delimited(r, '{', '}'),
        other => other,
    }
}

/// The length of a label with the comment and the whitespace that may
/// follow it.
pub open spec fn label_span(r: Seq<char>) -> nat {
    let n = label_comment_len(r);
    n + space_len(r.skip(n as int))
}

/// Where the `=` of a pair at the front of `r` has to stand.
pub open spec fn pair_equals_at(r: Seq<char>) -> nat {
    let a = space_len(r);
    a + label_span(r.skip(a as int))
}

/// The label of a pair at the front of `r`.
pub open spec fn pair_label(r: Seq<char>) -> Seq<char> {
    let a = space_len(r);
    r.subrange(a as int, (a + label_len(r.skip(a as int))) as int)
}

/// A pair: whitespace, a label, `=`, whitespace and a value. A missing `=` is
/// fatal; a value that does not open is recoverable.
#[verifier::opaque]
pub open spec fn key_value(r: Seq<char>) -> Parsed<(Seq<char>, Seq<char>)> {
    let e = pair_equals_at(r);
    if !has_char(r, e, '=') {
        Parsed::Fatal { at: e, expected: '=' }
    } else {
        let v = e + 1 + space_len(r.skip((e + 1) as int));
        match value(r.skip(v as int)) {
            Parsed::Done { consumed, value } => Parsed::Done {
                consumed: v + consumed,
                value: (pair_label(r), value),
            },
            Parsed::Recoverable { at, expected } => Parsed::Recoverable { at: v + at, expected },
            Parsed::Fatal { at, expected } => Parsed::Fatal { at: v + at, expected },
        }
    }
}

/// Whether a pair begins at the front of `r`: a label stands there, or an `=`
/// where the `=` of a pair with an empty label would stand.
#[verifier::opaque]
pub open spec fn pair_begins(r: Seq<char>) -> bool {
    label_len(r.skip(space_len(r) as int)) > 0 || has_char(r, pair_equals_at(r), '=')
}

/// The length of the separator at the front of `r`: whitespace, a comma, and
/// the comment that may follow the comma after more whitespace.
#[verifier::opaque]
pub open spec fn separator_len(r: Seq<char>) -> Option<nat> {
    let a = space_len(r);
    if has_char(r, a, ',') {
        let b = a + 1 + space_len(r.skip((a + 1) as int));
        match comment_len(r.skip(b as int)) {
            Some(c) => Some(b + c),
            None => Some(a + 1),
        }
    } else {
        None
    }
}

/// The field list at the front of `r`, folded into `fields`: pairs with
/// separators between them, a separator that may follow the last pair, and
/// trailing whitespace. A later pair replaces an earlier one of the same label.
/// The list ends where no pair begins; a pair that begins and fails is fatal.
#[verifier::opaque]
pub open spec fn field_list(r: Seq<char>, fields: Map<Seq<char>, Seq<char>>) -> Parsed<
    Map<Seq<char>, Seq<char>>,
>
    decreases r.len(),
{
    if !pair_begins(r) {
        Parsed::Done { consumed: space_len(r), value: fields }
    } else {
        match key_value(r) {
            Parsed::Done { consumed, value } => {
                let more = fields.insert(value.0, value.1);
                let after = r.skip(consumed as int);
                let s = separator_len(after);
                if s is Some && 0 < consumed + s->0 <= r.len() {
                    field_list(r.skip((consumed + s->0) as int), more).shift(consumed + s->0)
                } else {
                    Parsed::Done { consumed: consumed + space_len(after), value: more }
                }
            },
            Parsed::Recoverable { at, expected } => Parsed::Fatal { at, expected },
            Parsed::Fatal { at, expected } => Parsed::Fatal { at, expected },
        }
    }
}

/// What an entry holds: its type label, its citation key and its fields.
pub struct EntryModel {
    pub type_label: Seq<char>,
    pub citation_key: Seq<char>,
    pub fields: Map<Seq<char>, Seq<char>>,
}

/// Where the character after a label has to stand, given where the label
/// starts.
pub open spec fn after_label(r: Seq<char>, start: nat) -> nat {
    start + label_span(r.skip(start as int))
}

/// The head of an entry: whitespace, `@`, the type label, `{`, the citation
/// key and `,`. It yields the two labels. Only a missing `@` is recoverable.
#[verifier::opaque]
pub open spec fn entry_head(r: Seq<char>) -> Parsed<(Seq<char>, Seq<char>)> {
    let a = space_len(r);
    if !has_char(r, a, '@') {
        Parsed::Recoverable { at: a, expected: '@' }
    } else {
        let t = a + 1;
        let open = after_label(r, t);
        if !has_char(r, open, '{') {
            Parsed::Fatal { at: open, expected: '{' }
        } else {
            let k = open + 1 + space_len(r.skip((open + 1) as int));
            let comma = after_label(r, k);
            if !has_char(r, comma, ',') {
                Parsed::Fatal { at: comma, expected: ',' }
            } else {
                Parsed::Done {
                    consumed: comma + 1,
                    value: (
                        r.subrange(t as int, (t + label_len(r.skip(t as int))) as int),
                        r.subrange(k as int, (k + label_len(r.skip(k as int))) as int),
                    ),
                }
            }
        }
    }
}

/// An entry: its head, the field list and `}`. Every failure after the `@`
/// is fatal.
pub open spec fn entry(r: Seq<char>) -> Parsed<EntryModel> {
    match entry_head(r) {
        Parsed::Done { consumed: f, value: labels } => {
            match field_list(r.skip(f as int), Map::empty()) {
                Parsed::Done { consumed, value } => {
                    if has_char(r, f + consumed, '}') {
                        Parsed::Done {
                            consumed: f + consumed + 1,
                            value: EntryModel {
                                type_label: labels.0,
                                citation_key: labels.1,
                                fields: value,
                            },
                        }
                    } else {
                        Parsed::Fatal { at: f + consumed, expected: '}' }
                    }
                },
                Parsed::Recoverable { at, expected } => Parsed::Fatal { at: f + at, expected },
                Parsed::Fatal { at, expected } => Parsed::Fatal { at: f + at, expected },
            }
        },
        Parsed::Recoverable { at, expected } => Parsed::Recoverable { at, expected },
        Parsed::Fatal { at, expected } => Parsed::Fatal { at, expected },
    }
}

} // verus!
