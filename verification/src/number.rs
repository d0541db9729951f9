//! Numbers as they are written.

use crate::schema::argument_composition_strategies::digits_of;
use crate::schema::argument_composition_strategies::int_syntax;
use crate::schema::argument_composition_strategies::is_digit;
use crate::text::characters;
use crate::text::Text;
use vstd::prelude::*;

verus! {

/// Whether a text consists of decimal digits, of which there is one at least.
pub open spec fn all_digits(text: Text) -> bool {
    text.len() > 0 && forall|i: int| 0 <= i < text.len() ==> is_digit(#[trigger] text[i])
}

/// The first place from `n` on where an exponent begins, or the end.
pub open spec fn exponent_place(text: Text, n: nat) -> nat
    decreases text.len() - n,
{
    if n >= text.len() {
        text.len()
    } else if text[n as int] == 'e' || text[n as int] == 'E' {
        n
    } else {
        exponent_place(text, n + 1)
    }
}

/// The first place from `n` on with a decimal point, or the end.
pub open spec fn point_place(text: Text, n: nat) -> nat
    decreases text.len() - n,
{
    if n >= text.len() {
        text.len()
    } else if text[n as int] == '.' {
        n
    } else {
        point_place(text, n + 1)
    }
}

/// A text without a sign at its start.
pub open spec fn without_sign(text: Text) -> Text {
    if text.len() > 0 && (text[0] == '+' || text[0] == '-') {
        text.skip(1)
    } else {
        text
    }
}

/// Whether a text is an integer with a fraction.
pub open spec fn fraction_syntax(text: Text) -> bool {
    let p = point_place(text, 0) as int;
    p < text.len() && int_syntax(text.take(p)) && all_digits(text.skip(p + 1))
}

/// Whether a text is a floating point number: an integer with a fraction, with an exponent or with
/// both.
pub open spec fn float_syntax(text: Text) -> bool {
    let e = exponent_place(text, 0) as int;
    if e < text.len() {
        (int_syntax(text.take(e)) || fraction_syntax(text.take(e))) && all_digits(
            without_sign(text.skip(e + 1)),
        )
    } else {
        fraction_syntax(text)
    }
}

/// Whether the characters between two places are digits, of which there is one at least.
fn are_digits(chars: &Vec<char>, from: usize, to: usize) -> (r: bool)
    requires
        from <= to <= chars@.len(),
    ensures
        r == all_digits(chars@.subrange(from as int, to as int)),
{
    let ghost text = chars@.subrange(from as int, to as int);
    let mut i: usize = from;
    while i < to
        invariant
            from <= i <= to <= chars@.len(),
            text == chars@.subrange(from as int, to as int),
            forall|j: int| 0 <= j < i - from ==> is_digit(#[trigger] text[j]),
        decreases to - i,
    {
        if chars[i] < '0' || '9' < chars[i] {
            assert(!is_digit(text[i - from]));
            return false;
        }
        assert(text[i - from] == chars@[i as int]);
        i += 1;
    }
    from < to
}

/// Whether the characters between two places are an integer.
fn are_int(chars: &Vec<char>, from: usize, to: usize) -> (r: bool)
    requires
        from <= to <= chars@.len(),
    ensures
        r == int_syntax(chars@.subrange(from as int, to as int)),
{
    let ghost text = chars@.subrange(from as int, to as int);
    let start: usize = if from < to && chars[from] == '-' {
        assert(text[0] == '-');
        from + 1
    } else {
        from
    };
    assert(chars@.subrange(start as int, to as int) =~= digits_of(text));
    if !are_digits(chars, start, to) {
        return false;
    }
    assert(digits_of(text)[0] == chars@[start as int]);
    to - start == 1 || chars[start] != '0'
}

/// Whether the characters between two places are an integer with a fraction.
fn are_fraction(chars: &Vec<char>, to: usize) -> (r: bool)
    requires
        to <= chars@.len(),
    ensures
        r == fraction_syntax(chars@.take(to as int)),
{
    let ghost text = chars@.take(to as int);
    let mut p: usize = 0;
    while p < to && chars[p] != '.'
        invariant
            p <= to <= chars@.len(),
            text == chars@.take(to as int),
            point_place(text, 0) == point_place(text, p as nat),
        decreases to - p,
    {
        assert(text[p as int] == chars@[p as int]);
        p += 1;
    }
    assert(p < to ==> text[p as int] == chars@[p as int]);
    assert(point_place(text, 0) == p);
    if p == to {
        return false;
    }
    assert(chars@.subrange(0, p as int) =~= text.take(p as int));
    assert(chars@.subrange(p + 1, to as int) =~= text.skip(p + 1));
    are_int(chars, 0, p) && are_digits(chars, p + 1, to)
}

/// Whether a text is an integer as it is written.
pub fn is_int_syntax(text: &str) -> (r: bool)
    ensures
        r == int_syntax(text@),
{
    let chars = characters(text);
    assert(chars@.subrange(0, chars@.len() as int) =~= text@);
    are_int(&chars, 0, chars.len())
}

/// Whether a text is a floating point number as it is written.
pub fn is_float_syntax(text: &str) -> (r: bool)
    ensures
        r == float_syntax(text@),
{
    let chars = characters(text);
    let len: usize = chars.len();
    let mut e: usize = 0;
    while e < len && chars[e] != 'e' && chars[e] != 'E'
        invariant
            e <= len,
            len == chars@.len(),
            chars@ == text@,
            exponent_place(text@, 0) == exponent_place(text@, e as nat),
        decreases len - e,
    {
        e += 1;
    }
    assert(exponent_place(text@, 0) == e);
    assert(chars@.take(len as int) =~= text@);
    if e == len {
        return are_fraction(&chars, len);
    }
    let ghost exponent = text@.skip(e + 1);
    let start: usize = if e + 1 < len && (chars[e + 1] == '+' || chars[e + 1] == '-') {
        assert(exponent[0] == chars@[e + 1]);
        e + 2
    } else {
        assert(exponent.len() > 0 ==> exponent[0] == chars@[e + 1]);
        e + 1
    };
    assert(chars@.subrange(start as int, len as int) =~= without_sign(exponent));
    assert(chars@.subrange(0, e as int) =~= text@.take(e as int));
    (are_int(&chars, 0, e) || are_fraction(&chars, e)) && are_digits(&chars, start, len)
}

} // verus!
