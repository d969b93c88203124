//! What holds of the grammar on every input.

use vstd::prelude::*;
use crate::chars::{is_escapable, is_label_char, is_space, is_value_char};
use crate::grammar::{
    after_label, body, comment_len, delimited, entry, entry_head, field_list, has_char, key_value,
    label_comment_len, label_len, line_len, pair_begins, pair_equals_at, pair_label, run_len,
    separator_len, space_len, EntryModel, Parsed,
};

verus! {

/// The whitespace at the front of `r` is the longest stretch of whitespace
/// characters there.
pub proof fn law_space_is_longest(r: Seq<char>)
    ensures
        space_len(r) <= r.len(),
        forall|j: int| 0 <= j < space_len(r) ==> is_space(#[trigger] r[j]),
        space_len(r) < r.len() ==> !is_space(r[space_len(r) as int]),
    decreases r.len(),
{
    if r.len() > 0 && is_space(r[0]) {
        let rest = r.skip(1);
        law_space_is_longest(rest);
        assert forall|j: int| 0 <= j < space_len(r) implies is_space(#[trigger] r[j]) by {
            if j > 0 {
                assert(r[j] == rest[j - 1]);
            }
        }
        if space_len(r) < r.len() {
            assert(r[space_len(r) as int] == rest[space_len(rest) as int]);
        }
    }
}

/// The label at the front of `r` is the longest stretch of label characters
/// there.
pub proof fn law_label_is_longest(r: Seq<char>)
    ensures
        label_len(r) <= r.len(),
        forall|j: int| 0 <= j < label_len(r) ==> is_label_char(#[trigger] r[j]),
        label_len(r) < r.len() ==> !is_label_char(r[label_len(r) as int]),
    decreases r.len(),
{
    if r.len() > 0 && is_label_char(r[0]) {
        let rest = r.skip(1);
        law_label_is_longest(rest);
        assert forall|j: int| 0 <= j < label_len(r) implies is_label_char(#[trigger] r[j]) by {
            if j > 0 {
                assert(r[j] == rest[j - 1]);
            }
        }
        if label_len(r) < r.len() {
            assert(r[label_len(r) as int] == rest[label_len(rest) as int]);
        }
    }
}

/// The labels of an entry and of a pair hold label characters only.
pub proof fn law_labels_hold_label_characters(r: Seq<char>)
    ensures
        forall|j: int|
            0 <= j < pair_label(r).len() ==> is_label_char(#[trigger] pair_label(r)[j]),
        key_value(r) is Done ==> key_value(r)->Done_value.0 == pair_label(r),
        entry(r) is Done ==> (forall|j: int|
            0 <= j < entry(r)->Done_value.type_label.len() ==> is_label_char(
                #[trigger] entry(r)->Done_value.type_label[j],
            )) && (forall|j: int|
            0 <= j < entry(r)->Done_value.citation_key.len() ==> is_label_char(
                #[trigger] entry(r)->Done_value.citation_key[j],
            )),
{
    reveal(key_value);
    reveal(entry_head);
    law_space_is_longest(r);
    let a: int = space_len(r) as int;
    law_label_is_longest(r.skip(a));
    if entry(r) is Done {
        let t: int = a + 1;
        law_label_is_longest(r.skip(t));
        let open: int = after_label(r, t as nat) as int;
        let k: int = open + 1 + space_len(r.skip(open + 1));
        law_label_is_longest(r.skip(k));
    }
}

/// A run that takes all of `a` goes on into whatever follows `a`.
pub proof fn lemma_run_continues(a: Seq<char>, t: Seq<char>)
    requires
        run_len(a) == a.len(),
    ensures
        run_len(a + t) == a.len() + run_len(t),
    decreases a.len(),
{
    if a.len() == 0 {
        assert(a + t =~= t);
    } else if is_value_char(a[0]) {
        assert((a + t).skip(1) =~= a.skip(1) + t);
        lemma_run_continues(a.skip(1), t);
    } else {
        assert((a + t).skip(2) =~= a.skip(2) + t);
        lemma_run_continues(a.skip(2), t);
    }
}

/// A run never goes beyond the input.
pub proof fn lemma_run_within(a: Seq<char>)
    ensures
        run_len(a) <= a.len(),
    decreases a.len(),
{
    if a.len() > 0 && is_value_char(a[0]) {
        lemma_run_within(a.skip(1));
    } else if a.len() > 1 && a[0] == '\\' {
        lemma_run_within(a.skip(2));
    }
}

/// A run that stops inside `a`, at a character other than a backslash, stops
/// there whatever follows `a`.
pub proof fn lemma_run_stops(a: Seq<char>, t: Seq<char>)
    requires
        run_len(a) < a.len(),
        a[run_len(a) as int] != '\\',
    ensures
        run_len(a + t) == run_len(a),
    decreases a.len(),
{
    if is_value_char(a[0]) {
        assert((a + t).skip(1) =~= a.skip(1) + t);
        lemma_run_within(a.skip(1));
        lemma_run_stops(a.skip(1), t);
    } else if a.len() > 1 && a[0] == '\\' && is_escapable(a[1]) {
        assert((a + t).skip(2) =~= a.skip(2) + t);
        lemma_run_within(a.skip(2));
        lemma_run_stops(a.skip(2), t);
    } else {
        assert((a + t)[0] == a[0]);
    }
}

/// A line that ends inside `a` ends there whatever follows `a`, and it ends
/// inside `a` wherever it ends.
pub proof fn lemma_line_ends(a: Seq<char>, t: Seq<char>)
    requires
        line_len(a) is Some,
    ensures
        line_len(a + t) == line_len(a),
        line_len(a)->0 < a.len(),
    decreases a.len(),
{
    if a[0] != '\n' {
        assert((a + t).skip(1) =~= a.skip(1) + t);
        lemma_line_ends(a.skip(1), t);
    }
}

/// A comment that stands at the front of `a` is the same whatever follows `a`.
pub proof fn lemma_comment_ends(a: Seq<char>, t: Seq<char>)
    requires
        comment_len(a) is Some,
    ensures
        comment_len(a + t) == comment_len(a),
        comment_len(a)->0 <= a.len(),
{
    assert((a + t).skip(1) =~= a.skip(1) + t);
    lemma_line_ends(a.skip(1), t);
}

/// The line of a text without a newline, followed by a newline, is that text.
pub proof fn lemma_line_of(c: Seq<char>, t: Seq<char>)
    requires
        forall|j: int| 0 <= j < c.len() ==> c[j] != '\n',
    ensures
        line_len(c + seq!['\n'] + t) == Some(c.len()),
    decreases c.len(),
{
    let whole = c + seq!['\n'] + t;
    if c.len() > 0 {
        assert(whole.skip(1) =~= c.skip(1) + seq!['\n'] + t);
        lemma_line_of(c.skip(1), t);
    }
}

/// A body never goes beyond the input.
pub proof fn lemma_body_within(a: Seq<char>)
    ensures
        body(a).1 <= a.len(),
    decreases a.len(),
{
    let n = run_len(a);
    lemma_run_within(a);
    let c = comment_len(a.skip(n as int));
    if c is Some && n + c->0 <= a.len() {
        lemma_body_within(a.skip((n + c->0) as int));
    }
}

/// Where the body of `v` is all of `v`, the body of `v` followed by `t` is
/// the body of `v` joined with the body of `t`.
pub proof fn lemma_body_continues(v: Seq<char>, t: Seq<char>)
    requires
        body(v).1 == v.len(),
    ensures
        body(v + t).0 == body(v).0 + body(t).0,
        body(v + t).1 == v.len() + body(t).1,
    decreases v.len(),
{
    let n: int = run_len(v) as int;
    lemma_run_within(v);
    let c = comment_len(v.skip(n));
    if c is Some && n + c->0 <= v.len() {
        let k: int = n + c->0;
        let next = v.skip(k);
        lemma_body_within(next);
        lemma_run_stops(v, t);
        assert((v + t).skip(n) =~= v.skip(n) + t);
        lemma_comment_ends(v.skip(n), t);
        assert((v + t).skip(k) =~= next + t);
        lemma_body_continues(next, t);
        assert((v + t).take(n) =~= v.take(n));
        assert((v + t).take(n) + (body(next).0 + body(t).0) =~= (v.take(n) + body(next).0) + body(
            t,
        ).0);
    } else {
        if c is Some {
            lemma_comment_ends(v.skip(n), t);
        }
        lemma_run_continues(v, t);
        let m: int = run_len(t) as int;
        lemma_run_within(t);
        assert((v + t).skip(n + m) =~= t.skip(m));
        assert((v + t).take(n + m) =~= v + t.take(m));
        assert(v.take(n) =~= v);
        let d = comment_len(t.skip(m));
        if d is Some {
            let e: int = m + d->0;
            lemma_comment_ends(t.skip(m), Seq::empty());
            assert((v + t).skip(n + e) =~= t.skip(e));
            assert((v + t.take(m)) + body(t.skip(e)).0 =~= v + (t.take(m) + body(t.skip(e)).0));
        }
    }
}

/// A comment: a `#`, a text without a newline, and a newline.
pub open spec fn comment_of(text: Seq<char>) -> Seq<char> {
    seq!['#'] + text + seq!['\n']
}

/// A value written between `open` and `close`.
pub open spec fn written(v: Seq<char>, open: char, close: char) -> Seq<char> {
    seq![open] + v + seq![close]
}

/// The body of a comment followed by `t` is the body of `t`.
pub proof fn lemma_body_skips_comment(text: Seq<char>, t: Seq<char>)
    requires
        forall|j: int| 0 <= j < text.len() ==> text[j] != '\n',
    ensures
        body(comment_of(text) + t).0 == body(t).0,
        body(comment_of(text) + t).1 == text.len() + 2 + body(t).1,
{
    let whole = comment_of(text) + t;
    assert(whole[0] == '#');
    assert(run_len(whole) == 0);
    assert(whole.skip(0) =~= whole);
    assert(whole.skip(1) =~= text + seq!['\n'] + t);
    lemma_line_of(text, t);
    assert(whole.skip(text.len() + 2 as int) =~= t);
    assert(whole.take(0) + body(t).0 =~= body(t).0);
}

/// A comment anywhere in a string body leaves nothing behind. Where a comment
/// stands in a body, after a part `before` that the body takes whole, the
/// assembled value is that of the input without the comment, from its `#`
/// through its newline: what stood on either side is joined directly.
pub proof fn law_comment_leaves_nothing(before: Seq<char>, text: Seq<char>, after: Seq<char>)
    requires
        body(before).1 == before.len(),
        forall|j: int| 0 <= j < text.len() ==> text[j] != '\n',
    ensures
        body(before + comment_of(text) + after).0 == body(before + after).0,
        body(before + comment_of(text) + after).1 == body(before + after).1 + text.len() + 2,
{
    assert(before + comment_of(text) + after =~= before + (comment_of(text) + after));
    lemma_body_continues(before, comment_of(text) + after);
    lemma_body_continues(before, after);
    lemma_body_skips_comment(text, after);
}

/// A value made of value characters and escapes alone is its own body.
pub proof fn lemma_run_is_body(v: Seq<char>)
    requires
        run_len(v) == v.len(),
    ensures
        body(v) == (v, v.len()),
{
    assert(v.skip(v.len() as int) =~= Seq::<char>::empty());
    assert(v.take(v.len() as int) =~= v);
}

/// A body that is followed by a delimiter ends at the delimiter.
pub proof fn lemma_delimited_reads_written(v: Seq<char>, open: char, close: char, tail: Seq<char>)
    requires
        body(v).1 == v.len(),
        close == '"' || close == '}',
    ensures
        delimited(written(v, open, close) + tail, open, close) == (Parsed::Done {
            consumed: v.len() + 2,
            value: body(v).0,
        }),
{
    let whole = written(v, open, close) + tail;
    let end = seq![close] + tail;
    assert(whole.skip(1) =~= v + end);
    lemma_body_continues(v, end);
    assert(end[0] == close);
    assert(run_len(end) == 0);
    assert(end.skip(0) =~= end);
    assert(end.take(0) =~= Seq::<char>::empty());
    assert(body(v).0 + end.take(0) =~= body(v).0);
    assert(whole[1 + v.len() as int] == close);
}

/// Writing a value between quotes or braces and parsing it gives the value
/// back. For every value that a body takes whole, the string written with
/// the delimiters parses to the value without its comments, and to the value
/// itself where it is made of value characters and escapes alone. What
/// follows the closing delimiter does not matter.
pub proof fn law_string_round_trip(v: Seq<char>, tail: Seq<char>)
    requires
        body(v).1 == v.len(),
    ensures
        delimited(written(v, '"', '"') + tail, '"', '"') == (Parsed::Done {
            consumed: v.len() + 2,
            value: body(v).0,
        }),
        delimited(written(v, '{', '}') + tail, '{', '}') == (Parsed::Done {
            consumed: v.len() + 2,
            value: body(v).0,
        }),
        run_len(v) == v.len() ==> body(v).0 == v,
{
    lemma_delimited_reads_written(v, '"', '"', tail);
    lemma_delimited_reads_written(v, '{', '}', tail);
    if run_len(v) == v.len() {
        lemma_run_is_body(v);
    }
}

/// The characters of a run are a run by themselves.
pub proof fn lemma_run_alone(r: Seq<char>)
    ensures
        run_len(r) <= r.len(),
        run_len(r.take(run_len(r) as int)) == run_len(r),
    decreases r.len(),
{
    let n: int = run_len(r) as int;
    lemma_run_within(r);
    if r.len() > 0 && is_value_char(r[0]) {
        lemma_run_alone(r.skip(1));
        assert(r.take(n).skip(1) =~= r.skip(1).take(n - 1));
    } else if r.len() > 1 && r[0] == '\\' && is_escapable(r[1]) {
        lemma_run_alone(r.skip(2));
        assert(r.take(n).skip(2) =~= r.skip(2).take(n - 2));
    } else {
        assert(r.take(0).len() == 0);
    }
}

/// An assembled value is made of value characters and escapes alone, and is
/// no longer than the body it was assembled from. Where it is as long,
/// nothing was left out: the value is the body as it stands.
pub proof fn lemma_body_is_run(r: Seq<char>)
    ensures
        run_len(body(r).0) == body(r).0.len(),
        body(r).0.len() <= body(r).1 <= r.len(),
        body(r).0.len() == body(r).1 ==> body(r).0 == r.take(body(r).1 as int),
    decreases r.len(),
{
    let n: int = run_len(r) as int;
    lemma_run_alone(r);
    lemma_body_within(r);
    let c = comment_len(r.skip(n));
    if c is Some && n + c->0 <= r.len() {
        let next = r.skip(n + c->0);
        lemma_body_is_run(next);
        lemma_run_continues(r.take(n), body(next).0);
    }
}

/// What a string parses to, written out again, parses to itself. For every
/// input on which a string between `open` and `close` parses, the value
/// written between the same delimiters parses to the same value, whatever
/// follows it. Where the input held no comment, so that the value is as long
/// as what stood between the delimiters, the written string is the input
/// that was consumed, character for character.
pub proof fn law_reparse(r: Seq<char>, open: char, close: char, tail: Seq<char>)
    requires
        (open == '"' && close == '"') || (open == '{' && close == '}'),
        delimited(r, open, close) is Done,
    ensures
        delimited(
            written(delimited(r, open, close)->Done_value, open, close) + tail,
            open,
            close,
        ) == (Parsed::Done {
            consumed: delimited(r, open, close)->Done_value.len() + 2,
            value: delimited(r, open, close)->Done_value,
        }),
        delimited(r, open, close)->Done_consumed == delimited(r, open, close)->Done_value.len() + 2
            ==> r.take(delimited(r, open, close)->Done_consumed as int) == written(
            delimited(r, open, close)->Done_value,
            open,
            close,
        ),
{
    let v = delimited(r, open, close)->Done_value;
    let k: int = delimited(r, open, close)->Done_consumed as int;
    lemma_body_is_run(r.skip(1));
    lemma_run_is_body(v);
    lemma_delimited_reads_written(v, open, close, tail);
    if k == v.len() + 2 {
        assert(r.take(k) =~= written(v, open, close));
    }
}

/// A label that is followed by a character of another kind ends there.
pub proof fn lemma_label_stops(label: Seq<char>, t: Seq<char>)
    requires
        label_len(label) == label.len(),
        t.len() > 0,
        !is_label_char(t[0]),
    ensures
        label_len(label + t) == label.len(),
    decreases label.len(),
{
    if label.len() == 0 {
        assert(label + t =~= t);
    } else {
        assert((label + t).skip(1) =~= label.skip(1) + t);
        lemma_label_stops(label.skip(1), t);
    }
}

/// A pair as it is written: the label, ` = `, and the value between `open`
/// and `close`.
pub open spec fn written_pair(label: Seq<char>, v: Seq<char>, open: char, close: char) -> Seq<
    char,
> {
    label + seq![' ', '=', ' '] + written(v, open, close)
}

/// A pair that is written out parses to its label and its value.
pub proof fn lemma_pair_reads_written(
    label: Seq<char>,
    v: Seq<char>,
    open: char,
    close: char,
    tail: Seq<char>,
)
    requires
        label.len() > 0,
        label_len(label) == label.len(),
        body(v).1 == v.len(),
        (open == '"' && close == '"') || (open == '{' && close == '}'),
    ensures
        key_value(written_pair(label, v, open, close) + tail) == (Parsed::Done {
            consumed: label.len() + v.len() + 5,
            value: (label, body(v).0),
        }),
        pair_begins(written_pair(label, v, open, close) + tail),
{
    reveal(key_value);
    reveal(pair_begins);
    let n: int = label.len() as int;
    let whole = written_pair(label, v, open, close) + tail;
    let rest = seq![' ', '=', ' '] + written(v, open, close) + tail;
    assert(whole =~= label + rest);
    assert(is_label_char(label[0]));
    assert(whole[0] == label[0]);
    assert(space_len(whole) == 0);
    assert(whole.skip(0) =~= whole);
    lemma_label_stops(label, rest);
    assert(whole.skip(n) =~= rest);
    assert(comment_len(rest) is None);
    assert(label_comment_len(whole) == n);
    assert(rest.skip(1)[0] == '=');
    assert(space_len(rest.skip(1)) == 0);
    assert(space_len(rest) == 1);
    assert(pair_equals_at(whole) == n + 1);
    assert(whole[n + 1] == rest[1]);
    let opening = whole.skip(n + 2);
    assert(opening[0] == ' ');
    assert(opening.skip(1) =~= written(v, open, close) + tail);
    assert(opening.skip(1)[0] == open);
    assert(space_len(opening.skip(1)) == 0);
    assert(space_len(opening) == 1);
    assert(whole.skip(n + 3) =~= written(v, open, close) + tail);
    lemma_delimited_reads_written(v, open, close, tail);
    assert(whole.subrange(0, n) =~= label);
}

/// Writing a pair and parsing it gives the label and the value back. For
/// every label of one label character or more, and every value that a body
/// takes whole, the pair written with quotes or with braces parses to the
/// label and the value without its comments: the value itself where it is
/// made of value characters and escapes alone.
pub proof fn law_pair_round_trip(label: Seq<char>, v: Seq<char>, tail: Seq<char>)
    requires
        label.len() > 0,
        label_len(label) == label.len(),
        body(v).1 == v.len(),
    ensures
        key_value(written_pair(label, v, '"', '"') + tail) == (Parsed::Done {
            consumed: label.len() + v.len() + 5,
            value: (label, body(v).0),
        }),
        key_value(written_pair(label, v, '{', '}') + tail) == (Parsed::Done {
            consumed: label.len() + v.len() + 5,
            value: (label, body(v).0),
        }),
        run_len(v) == v.len() ==> body(v).0 == v,
{
    lemma_pair_reads_written(label, v, '"', '"', tail);
    lemma_pair_reads_written(label, v, '{', '}', tail);
    if run_len(v) == v.len() {
        lemma_run_is_body(v);
    }
}

/// Whether `a` and `b` hold the same field list: the same pairs in the same
/// order. They may differ in whitespace and comments, in how each value is
/// delimited, and in whether a separator follows the last pair.
pub open spec fn same_fields(a: Seq<char>, b: Seq<char>) -> bool
    decreases a.len(),
{
    if pair_begins(a) && pair_begins(b) {
        match (key_value(a), key_value(b)) {
            (
                Parsed::Done { consumed: ka, value: pa },
                Parsed::Done { consumed: kb, value: pb },
            ) => {
                let sa = separator_len(a.skip(ka as int));
                let sb = separator_len(b.skip(kb as int));
                let more_a = sa is Some && pair_begins(a.skip((ka + sa->0) as int));
                let more_b = sb is Some && pair_begins(b.skip((kb + sb->0) as int));
                pa == pb && if more_a && more_b {
                    0 < ka + sa->0 <= a.len() && 0 < kb + sb->0 <= b.len() && same_fields(
                        a.skip((ka + sa->0) as int),
                        b.skip((kb + sb->0) as int),
                    )
                } else {
                    !more_a && !more_b
                }
            },
            _ => false,
        }
    } else {
        !pair_begins(a) && !pair_begins(b)
    }
}

/// The mapping that a field list gives, where it gives one.
pub open spec fn fields_of(p: Parsed<Map<Seq<char>, Seq<char>>>) -> Option<
    Map<Seq<char>, Seq<char>>,
> {
    match p {
        Parsed::Done { value, .. } => Some(value),
        _ => None,
    }
}

/// Shifting an outcome keeps what it yields.
pub proof fn lemma_shift_keeps_fields(p: Parsed<Map<Seq<char>, Seq<char>>>, n: nat)
    ensures
        fields_of(p.shift(n)) == fields_of(p),
{
}

/// A separator after the last pair changes nothing. Two inputs that hold the
/// same field list parse to the same mapping, whether or not a separator
/// follows the last pair of either.
pub proof fn law_trailing_separator(
    a: Seq<char>,
    b: Seq<char>,
    fields: Map<Seq<char>, Seq<char>>,
)
    requires
        same_fields(a, b),
    ensures
        fields_of(field_list(a, fields)) is Some,
        fields_of(field_list(a, fields)) == fields_of(field_list(b, fields)),
    decreases a.len(),
{
    reveal(field_list);
    if pair_begins(a) && pair_begins(b) {
        let ka = key_value(a)->Done_consumed;
        let kb = key_value(b)->Done_consumed;
        let pair = key_value(a)->Done_value;
        let more = fields.insert(pair.0, pair.1);
        let sa = separator_len(a.skip(ka as int));
        let sb = separator_len(b.skip(kb as int));
        let more_a = sa is Some && pair_begins(a.skip((ka + sa->0) as int));
        let more_b = sb is Some && pair_begins(b.skip((kb + sb->0) as int));
        if more_a && more_b {
            let next_a = a.skip((ka + sa->0) as int);
            let next_b = b.skip((kb + sb->0) as int);
            law_trailing_separator(next_a, next_b, more);
            lemma_shift_keeps_fields(field_list(next_a, more), ka + sa->0);
            lemma_shift_keeps_fields(field_list(next_b, more), kb + sb->0);
        } else {
            if sa is Some && 0 < ka + sa->0 <= a.len() {
                let next_a = a.skip((ka + sa->0) as int);
                lemma_shift_keeps_fields(field_list(next_a, more), ka + sa->0);
            }
            if sb is Some && 0 < kb + sb->0 <= b.len() {
                let next_b = b.skip((kb + sb->0) as int);
                lemma_shift_keeps_fields(field_list(next_b, more), kb + sb->0);
            }
        }
    }
}

/// A string that has opened is parsed or fails fatally. Once the opening
/// delimiter stands at the front, the outcome is never recoverable; where the
/// input ends inside the string, the failure is fatal and lies at the end of
/// the input.
pub proof fn law_opened_string_commits(r: Seq<char>, open: char, close: char)
    requires
        has_char(r, 0, open),
    ensures
        !(delimited(r, open, close) is Recoverable),
        1 + body(r.skip(1)).1 == r.len() ==> delimited(r, open, close) == (Parsed::<
            Seq<char>,
        >::Fatal { at: r.len(), expected: close }),
{
}

/// A field list never fails recoverably.
pub proof fn law_field_list_commits(r: Seq<char>, fields: Map<Seq<char>, Seq<char>>)
    ensures
        !(field_list(r, fields) is Recoverable),
    decreases r.len(),
{
    reveal(field_list);
    if pair_begins(r) && key_value(r) is Done {
        let k = key_value(r)->Done_consumed;
        let pair = key_value(r)->Done_value;
        let s = separator_len(r.skip(k as int));
        if s is Some && 0 < k + s->0 <= r.len() {
            law_field_list_commits(r.skip((k + s->0) as int), fields.insert(pair.0, pair.1));
        }
    }
}

/// An entry fails recoverably only before its `@`. The failure is
/// recoverable exactly where no `@` stands after the leading whitespace, and
/// it then lies where the `@` was expected.
pub proof fn law_entry_commits(r: Seq<char>)
    ensures
        entry(r) is Recoverable <==> !has_char(r, space_len(r), '@'),
        entry(r) is Recoverable ==> entry(r) == (Parsed::<EntryModel>::Recoverable {
            at: space_len(r),
            expected: '@',
        }),
{
    reveal(entry_head);
}

/// A pair to write: a label and the text of a value.
pub type Pair = (Seq<char>, Seq<char>);

/// Whether each pair can be written: its label is one label character or
/// more, and a body takes its value whole.
pub open spec fn can_be_written(pairs: Seq<Pair>) -> bool {
    forall|j: int|
        0 <= j < pairs.len() ==> (#[trigger] pairs[j]).0.len() > 0 && label_len(pairs[j].0)
            == pairs[j].0.len() && body(pairs[j].1).1 == pairs[j].1.len()
}

/// A field list as it is written: the pairs, each value in braces, with a
/// comma between them and, where `trailing` is set, one after the last.
pub open spec fn written_fields(pairs: Seq<Pair>, trailing: bool) -> Seq<char>
    decreases pairs.len(),
{
    if pairs.len() == 0 {
        Seq::empty()
    } else if pairs.len() == 1 {
        written_pair(pairs[0].0, pairs[0].1, '{', '}') + (if trailing {
            seq![',']
        } else {
            Seq::empty()
        })
    } else {
        written_pair(pairs[0].0, pairs[0].1, '{', '}') + seq![','] + written_fields(
            pairs.skip(1),
            trailing,
        )
    }
}

/// The mapping after the pairs are put into `fields` one by one, each with
/// its value as a body assembles it. A later pair replaces an earlier one of
/// the same label.
pub open spec fn folded(pairs: Seq<Pair>, fields: Map<Seq<char>, Seq<char>>) -> Map<
    Seq<char>,
    Seq<char>,
>
    decreases pairs.len(),
{
    if pairs.len() == 0 {
        fields
    } else {
        folded(pairs.skip(1), fields.insert(pairs[0].0, body(pairs[0].1).0))
    }
}

/// Nothing of a field list stands where the input ends or a `}` stands.
pub proof fn lemma_list_ends(tail: Seq<char>)
    requires
        tail.len() == 0 || tail[0] == '}',
    ensures
        !pair_begins(tail),
        separator_len(tail) is None,
        space_len(tail) == 0,
        comment_len(tail) is None,
{
    reveal(pair_begins);
    reveal(separator_len);
    assert(tail.skip(0) =~= tail);
}

/// A comma that is followed by a label, by a `}` or by nothing is a
/// separator of one character.
pub proof fn lemma_comma_separates(x: Seq<char>)
    requires
        x.len() == 0 || x[0] == '}' || is_label_char(x[0]),
    ensures
        separator_len(seq![','] + x) == Some(1nat),
{
    reveal(separator_len);
    let whole = seq![','] + x;
    assert(whole[0] == ',');
    assert(space_len(whole) == 0);
    assert(whole.skip(1) =~= x);
    assert(space_len(x) == 0);
    assert(comment_len(x) is None);
}

/// Where no pair begins, the field list ends after the whitespace.
pub proof fn lemma_list_done(r: Seq<char>, fields: Map<Seq<char>, Seq<char>>)
    requires
        !pair_begins(r),
    ensures
        field_list(r, fields) == (Parsed::Done { consumed: space_len(r), value: fields }),
{
    reveal(field_list);
}

/// Where no separator follows a pair, the field list ends after the pair and
/// the whitespace behind it.
pub proof fn lemma_list_last(r: Seq<char>, fields: Map<Seq<char>, Seq<char>>, k: nat, pair: Pair)
    requires
        pair_begins(r),
        key_value(r) == (Parsed::Done { consumed: k, value: pair }),
        separator_len(r.skip(k as int)) is None,
    ensures
        field_list(r, fields) == (Parsed::Done {
            consumed: k + space_len(r.skip(k as int)),
            value: fields.insert(pair.0, pair.1),
        }),
{
    reveal(field_list);
}

/// Where a separator follows a pair, the field list goes on behind it.
pub proof fn lemma_list_next(
    r: Seq<char>,
    fields: Map<Seq<char>, Seq<char>>,
    k: nat,
    pair: Pair,
    s: nat,
)
    requires
        pair_begins(r),
        key_value(r) == (Parsed::Done { consumed: k, value: pair }),
        separator_len(r.skip(k as int)) == Some(s),
        0 < k + s <= r.len(),
    ensures
        field_list(r, fields) == field_list(
            r.skip((k + s) as int),
            fields.insert(pair.0, pair.1),
        ).shift(k + s),
{
    reveal(field_list);
}

/// A written field list parses to its pairs, with or without a comma after
/// the last. For all pairs that can be written, the list written with a
/// trailing comma and the list written without one parse to the same
/// mapping: the pairs put in one by one, so that the last of a repeated label
/// stays. The parse ends where the written list ends.
pub proof fn law_written_fields(
    pairs: Seq<Pair>,
    trailing: bool,
    tail: Seq<char>,
    fields: Map<Seq<char>, Seq<char>>,
)
    requires
        can_be_written(pairs),
        tail.len() == 0 || tail[0] == '}',
    ensures
        field_list(written_fields(pairs, trailing) + tail, fields) == (Parsed::Done {
            consumed: written_fields(pairs, trailing).len(),
            value: folded(pairs, fields),
        }),
    decreases pairs.len(),
{
    let list = written_fields(pairs, trailing);
    let whole = list + tail;
    lemma_list_ends(tail);
    if pairs.len() == 0 {
        assert(whole =~= tail);
        lemma_list_done(tail, fields);
    } else {
        let first = written_pair(pairs[0].0, pairs[0].1, '{', '}');
        let k: nat = first.len();
        let pair: Pair = (pairs[0].0, body(pairs[0].1).0);
        let more = fields.insert(pair.0, pair.1);
        let after = whole.skip(k as int);
        assert(k == pairs[0].0.len() + pairs[0].1.len() + 5);
        assert(whole =~= first + after);
        lemma_pair_reads_written(pairs[0].0, pairs[0].1, '{', '}', after);
        if pairs.len() == 1 {
            assert(folded(pairs.skip(1), more) == more);
            if trailing {
                assert(after =~= seq![','] + tail);
                lemma_comma_separates(tail);
                assert(whole.skip((k + 1) as int) =~= tail);
                lemma_list_next(whole, fields, k, pair, 1);
                lemma_list_done(tail, more);
            } else {
                assert(after =~= tail);
                lemma_list_last(whole, fields, k, pair);
            }
        } else {
            let rest = pairs.skip(1);
            let next = written_fields(rest, trailing) + tail;
            assert(can_be_written(rest)) by {
                assert forall|j: int| 0 <= j < rest.len() implies (#[trigger] rest[j]).0.len() > 0
                    && label_len(rest[j].0) == rest[j].0.len() && body(rest[j].1).1
                    == rest[j].1.len() by {
                    assert(rest[j] == pairs[j + 1]);
                }
            }
            assert(after =~= seq![','] + next);
            assert(rest[0] == pairs[1]);
            assert(next[0] == rest[0].0[0]);
            assert(is_label_char(rest[0].0[0]));
            lemma_comma_separates(next);
            assert(whole.skip((k + 1) as int) =~= next);
            lemma_list_next(whole, fields, k, pair, 1);
            law_written_fields(rest, trailing, tail, more);
            assert(list.len() == k + 1 + written_fields(rest, trailing).len());
        }
    }
}

/// A trailing comma adds no pair. For all pairs that can be written, the
/// list with a comma after its last pair parses to the mapping of the list
/// without it.
pub proof fn law_trailing_comma(
    pairs: Seq<Pair>,
    tail: Seq<char>,
    fields: Map<Seq<char>, Seq<char>>,
)
    requires
        can_be_written(pairs),
        tail.len() == 0 || tail[0] == '}',
    ensures
        fields_of(field_list(written_fields(pairs, true) + tail, fields)) == fields_of(
            field_list(written_fields(pairs, false) + tail, fields),
        ),
        fields_of(field_list(written_fields(pairs, true) + tail, fields)) == Some(
            folded(pairs, fields),
        ),
{
    law_written_fields(pairs, true, tail, fields);
    law_written_fields(pairs, false, tail, fields);
}

} // verus!
