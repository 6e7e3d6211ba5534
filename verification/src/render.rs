//! Writing a decimal number as text.
//!
//! What is written is a JSON number, and it reads back as the decimal it was
//! written from: the digits of the unscaled integer, with a decimal point
//! where the scale puts it. Numbers that would need many zeros to be padded
//! out are written with an exponent instead.

use crate::decimal::{magnitude, parts_value, scale_in_range, Decimal, DecimalValue};
use crate::digits::{
    all_digits, canonical, digits_of, lemma_leading_zeros, lemma_value_of_digits, reversed,
};
use crate::parse::{
    digit_values, digits_end, exponent_at, is_sign, lemma_digits_end, text_value,
};
use crate::text::{digit_char, from_digit, is_digit, push_char};
use vstd::prelude::*;

verus! {

/// The most zeros written between the decimal point and the first digit of
/// the unscaled integer. A number that needs more is written with an exponent.
pub const MAX_LEADING_ZEROS: usize = 6;

/// The ASCII digits that write `d`, digit by digit.
pub open spec fn digit_chars(d: Seq<u8>) -> Seq<char> {
    d.map_values(|x: u8| digit_char(x))
}

/// `n` zeros.
pub open spec fn zeros(n: nat) -> Seq<char> {
    Seq::new(n, |i: int| '0')
}

/// A minus sign where `negative` is set, else nothing.
pub open spec fn sign_text(negative: bool) -> Seq<char> {
    if negative {
        seq!['-']
    } else {
        Seq::empty()
    }
}

/// The integer `n` in decimal, with a minus sign where it is below zero.
pub open spec fn integer_text(n: int) -> Seq<char> {
    sign_text(n < 0) + digit_chars(digits_of(magnitude(n)))
}

/// The text that writes `v`.
///
/// With `d` for the digits of the unscaled integer and `n` for their number:
/// - scale `0`: the sign and `d`;
/// - scale below `n`: a decimal point before the last `scale` digits;
/// - scale from `n` to `n + MAX_LEADING_ZEROS`: `0.`, then `scale - n` zeros, then `d`;
/// - any other scale: `d`, then `e` and the exponent `-scale`.
pub open spec fn notation(v: DecimalValue) -> Seq<char> {
    let sign = sign_text(v.unscaled < 0);
    let d = digit_chars(digits_of(magnitude(v.unscaled)));
    let n = d.len();
    if v.scale == 0 {
        sign + d
    } else if 0 < v.scale < n {
        sign + d.take(n - v.scale) + seq!['.'] + d.skip(n - v.scale)
    } else if n <= v.scale <= n + MAX_LEADING_ZEROS {
        sign + seq!['0', '.'] + zeros((v.scale - n) as nat) + d
    } else {
        sign + d + seq!['e'] + integer_text(-v.scale)
    }
}

/// Whether `s` is a number as JSON writes them: an optional minus sign, an
/// integer part without leading zeros, an optional fraction of at least one
/// digit, and an optional exponent.
pub open spec fn is_json_number(s: Seq<char>) -> bool {
    let from: int = if s.len() > 0 && s[0] == '-' {
        1
    } else {
        0
    };
    let whole_to = digits_end(s, from);
    let with_point = whole_to < s.len() && s[whole_to] == '.';
    let fraction_to = if with_point {
        digits_end(s, whole_to + 1)
    } else {
        whole_to
    };
    &&& from < whole_to
    &&& whole_to - from > 1 ==> s[from] != '0'
    &&& with_point ==> whole_to + 1 < fraction_to
    &&& exponent_at(s, fraction_to) is Some
}

/// The canonical digits of `n`, most significant first.
pub fn integer_digits(n: u64) -> (r: Vec<u8>)
    ensures
        r@ == digits_of(n as nat),
{
    let mut low: Vec<u8> = Vec::new();
    let mut rest: u64 = n;
    assert(digits_of(n as nat) =~= digits_of(rest as nat) + low@.reverse());
    while rest >= 10
        invariant
            digits_of(n as nat) == digits_of(rest as nat) + low@.reverse(),
        decreases rest,
    {
        let last: u8 = (rest % 10) as u8;
        proof {
            let longer = low@.push(last);
            let shorter = digits_of((rest / 10) as nat);
            assert(digits_of(rest as nat) == shorter.push(last));
            assert(longer.reverse() =~= seq![last] + low@.reverse());
            assert(shorter.push(last) + low@.reverse() =~= shorter + longer.reverse());
        }
        low.push(last);
        rest = rest / 10;
    }
    proof {
        let last = rest as u8;
        let longer = low@.push(last);
        assert(digits_of(rest as nat) =~= seq![last]);
        assert(longer.reverse() =~= seq![last] + low@.reverse());
    }
    low.push(rest as u8);
    reversed(&low)
}

/// Appends the ASCII digits that write `digits[from..to]`.
fn push_digits(text: &mut String, digits: &Vec<u8>, from: usize, to: usize)
    requires
        from <= to <= digits.len(),
        all_digits(digits@),
    ensures
        final(text)@ == old(text)@ + digit_chars(digits@.subrange(from as int, to as int)),
{
    let mut i: usize = from;
    assert(text@ =~= old(text)@ + digit_chars(digits@.subrange(from as int, i as int)));
    while i < to
        invariant
            from <= i <= to <= digits.len(),
            all_digits(digits@),
            text@ == old(text)@ + digit_chars(digits@.subrange(from as int, i as int)),
        decreases to - i,
    {
        let c: char = from_digit(digits[i]);
        proof {
            let before = digits@.subrange(from as int, i as int);
            let after = digits@.subrange(from as int, i + 1);
            assert(after =~= before.push(digits@[i as int]));
            assert(digit_chars(after) =~= digit_chars(before).push(c));
            assert(old(text)@ + digit_chars(after) =~= (old(text)@ + digit_chars(before)).push(c));
        }
        push_char(text, c);
        i = i + 1;
    }
}

/// Appends `count` zeros.
fn push_zeros(text: &mut String, count: usize)
    ensures
        final(text)@ == old(text)@ + zeros(count as nat),
{
    let mut i: usize = 0;
    assert(text@ =~= old(text)@ + zeros(0));
    while i < count
        invariant
            i <= count,
            text@ == old(text)@ + zeros(i as nat),
        decreases count - i,
    {
        assert(old(text)@ + zeros((i + 1) as nat) =~= (old(text)@ + zeros(i as nat)).push('0'));
        push_char(text, '0');
        i = i + 1;
    }
}

/// Appends the exponent that belongs to `scale`: the integer `-scale`.
fn push_exponent(text: &mut String, scale: i64)
    ensures
        final(text)@ == old(text)@ + integer_text(-(scale as int)),
{
    let size: u64 = if scale < 0 {
        (-(scale as i128)) as u64
    } else {
        scale as u64
    };
    let digits: Vec<u8> = integer_digits(size);
    proof {
        lemma_value_of_digits(size as nat);
        assert(digits@.subrange(0, digits.len() as int) =~= digits@);
    }
    if scale > 0 {
        push_char(text, '-');
        assert(text@ =~= old(text)@ + sign_text(true));
    } else {
        assert(text@ =~= old(text)@ + sign_text(false));
    }
    push_digits(text, &digits, 0, digits.len());
    assert(text@ =~= old(text)@ + integer_text(-(scale as int)));
}

/// Writes `d` as text: a JSON number that reads back as `d`.
pub fn write_decimal(d: &Decimal) -> (text: String)
    ensures
        text@ == notation(d@),
        is_json_number(text@),
        text_value(text@) == Some(d@),
{
    let digits: &Vec<u8> = d.digits();
    let n: usize = digits.len();
    let scale: i64 = d.scale();
    let ghost shown = digit_chars(digits@);
    proof {
        lemma_value_of_digits(magnitude(d@.unscaled));
        assert(digits@.subrange(0, n as int) =~= digits@);
    }
    let mut text: String = String::new();
    if d.is_negative() {
        push_char(&mut text, '-');
    }
    assert(text@ =~= sign_text(d@.unscaled < 0));
    let ghost sign = text@;
    if scale == 0 {
        push_digits(&mut text, digits, 0, n);
    } else if scale > 0 && (scale as u64) < (n as u64) {
        let split: usize = n - scale as usize;
        push_digits(&mut text, digits, 0, split);
        push_char(&mut text, '.');
        push_digits(&mut text, digits, split, n);
        proof {
            assert(digit_chars(digits@.subrange(0, split as int)) =~= shown.take(split as int));
            assert(digit_chars(digits@.subrange(split as int, n as int)) =~= shown.skip(
                split as int,
            ));
            assert(text@ =~= sign + shown.take(split as int) + seq!['.'] + shown.skip(
                split as int,
            ));
        }
    } else if scale > 0 && (scale as u128) <= (n as u128) + (MAX_LEADING_ZEROS as u128) {
        let padding: usize = (scale as u128 - n as u128) as usize;
        push_char(&mut text, '0');
        push_char(&mut text, '.');
        push_zeros(&mut text, padding);
        push_digits(&mut text, digits, 0, n);
        assert(text@ =~= sign + seq!['0', '.'] + zeros(padding as nat) + shown);
    } else {
        push_digits(&mut text, digits, 0, n);
        push_char(&mut text, 'e');
        push_exponent(&mut text, scale);
        assert(text@ =~= sign + shown + seq!['e'] + integer_text(-(scale as int)));
    }
    assert(text@ == notation(d@));
    proof {
        lemma_notation_reads_back(d@);
    }
    text
}

/// A run of written digits in a text is read as the digits it was written
/// from, and ends where the next character is no digit.
pub proof fn lemma_written_digits_read_back(text: Seq<char>, from: int, d: Seq<u8>)
    requires
        all_digits(d),
        0 <= from,
        from + d.len() <= text.len(),
        text.subrange(from, from + d.len()) == digit_chars(d),
        from + d.len() == text.len() || !is_digit(text[from + d.len()]),
    ensures
        digits_end(text, from) == from + d.len(),
        digit_values(text.subrange(from, from + d.len())) == d,
{
    let to = from + d.len();
    let run = text.subrange(from, to);
    assert forall|k: int| from <= k < to implies is_digit(text[k]) by {
        assert(text[k] == run[k - from]);
        assert(run[k - from] == digit_char(d[k - from]));
    }
    lemma_digits_end(text, from, to);
    assert(digit_values(run) =~= d);
}

/// The first character of a sign followed by digits is the sign where
/// there is one, else a digit.
proof fn lemma_sign_is_read(text: Seq<char>, negative: bool, first: char)
    requires
        text.len() > sign_text(negative).len(),
        text.take(sign_text(negative).len() as int) == sign_text(negative),
        text[sign_text(negative).len() as int] == first,
        is_digit(first),
    ensures
        (text.len() > 0 && is_sign(text[0])) == negative,
        (text.len() > 0 && text[0] == '-') == negative,
{
    let sign = sign_text(negative);
    if negative {
        assert(text[0] == text.take(1)[0]);
    }
}

/// A number written without point or exponent reads back.
proof fn lemma_whole_reads_back(negative: bool, digits: Seq<u8>)
    requires
        canonical(digits),
    ensures
        text_value(sign_text(negative) + digit_chars(digits)) == Some(
            parts_value(negative, digits, 0),
        ),
        is_json_number(sign_text(negative) + digit_chars(digits)),
{
    let sign = sign_text(negative);
    let d = digit_chars(digits);
    let text = sign + d;
    let s0 = sign.len() as int;
    let n = d.len() as int;
    assert(d[0] == digit_char(digits[0]));
    assert(text.take(s0) =~= sign);
    lemma_sign_is_read(text, negative, d[0]);
    assert(text.subrange(s0, s0 + n) =~= d);
    lemma_written_digits_read_back(text, s0, digits);
    assert(digit_values(text.subrange(s0 + n, s0 + n)) =~= Seq::<u8>::empty());
    assert(digits + Seq::<u8>::empty() =~= digits);
    assert(exponent_at(text, s0 + n) == Some(0int));
}

/// A number written with a point among its digits reads back.
proof fn lemma_split_reads_back(negative: bool, digits: Seq<u8>, scale: int)
    requires
        canonical(digits),
        0 < scale < digits.len(),
        scale_in_range(scale),
    ensures
        text_value(
            sign_text(negative) + digit_chars(digits).take(digits.len() - scale) + seq!['.']
                + digit_chars(digits).skip(digits.len() - scale),
        ) == Some(parts_value(negative, digits, scale)),
        is_json_number(
            sign_text(negative) + digit_chars(digits).take(digits.len() - scale) + seq!['.']
                + digit_chars(digits).skip(digits.len() - scale),
        ),
{
    let sign = sign_text(negative);
    let d = digit_chars(digits);
    let n = d.len() as int;
    let w = n - scale;
    let text = sign + d.take(w) + seq!['.'] + d.skip(w);
    let s0 = sign.len() as int;
    assert(d[0] == digit_char(digits[0]));
    assert(text.take(s0) =~= sign);
    lemma_sign_is_read(text, negative, d[0]);
    assert(text.subrange(s0, s0 + w) =~= digit_chars(digits.take(w)));
    assert(text[s0 + w] == '.');
    lemma_written_digits_read_back(text, s0, digits.take(w));
    assert(text.len() == s0 + n + 1);
    assert(text.subrange(s0 + w + 1, s0 + w + 1 + (n - w)) =~= digit_chars(digits.skip(w)));
    lemma_written_digits_read_back(text, s0 + w + 1, digits.skip(w));
    assert(digits.take(w) + digits.skip(w) =~= digits);
    assert(exponent_at(text, s0 + n + 1) == Some(0int));
}

/// A number written with zeros after the point reads back.
proof fn lemma_padded_reads_back(negative: bool, digits: Seq<u8>, scale: int)
    requires
        canonical(digits),
        digits.len() <= scale,
        scale_in_range(scale),
    ensures
        text_value(
            sign_text(negative) + seq!['0', '.'] + zeros((scale - digits.len()) as nat)
                + digit_chars(digits),
        ) == Some(parts_value(negative, digits, scale)),
        is_json_number(
            sign_text(negative) + seq!['0', '.'] + zeros((scale - digits.len()) as nat)
                + digit_chars(digits),
        ),
{
    let sign = sign_text(negative);
    let d = digit_chars(digits);
    let n = d.len() as int;
    let z = scale - n;
    let text = sign + seq!['0', '.'] + zeros(z as nat) + d;
    let s0 = sign.len() as int;
    let nought = seq![0u8];
    let padding = Seq::new(z as nat, |i: int| 0u8);
    let fraction = padding + digits;
    assert(text.take(s0) =~= sign);
    assert(text[s0] == '0');
    lemma_sign_is_read(text, negative, '0');
    assert(text.subrange(s0, s0 + 1) =~= digit_chars(nought));
    assert(text[s0 + 1] == '.');
    lemma_written_digits_read_back(text, s0, nought);
    assert(text.len() == s0 + 2 + z + n);
    assert(text.subrange(s0 + 2, s0 + 2 + (z + n)) =~= digit_chars(fraction));
    lemma_written_digits_read_back(text, s0 + 2, fraction);
    let mantissa = nought + fraction;
    lemma_leading_zeros(mantissa, 1 + z);
    assert(mantissa.skip(1 + z) =~= digits);
    assert(exponent_at(text, s0 + 2 + z + n) == Some(0int));
    assert(text_value(text) == Some(parts_value(negative, mantissa, scale)));
}

/// An integer written as an exponent reads back.
proof fn lemma_exponent_reads_back(text: Seq<char>, at: int, e: int)
    requires
        0 <= at < text.len(),
        text[at] == 'e',
        text.skip(at + 1) == integer_text(e),
    ensures
        exponent_at(text, at) == Some(e),
{
    let e_sign = sign_text(e < 0);
    let e_digits = digits_of(magnitude(e));
    let shown = digit_chars(e_digits);
    let e0 = e_sign.len() as int;
    let m = e_digits.len() as int;
    let tail = text.skip(at + 1);
    lemma_value_of_digits(magnitude(e));
    assert(tail =~= e_sign + shown);
    assert(text.len() == at + 1 + e0 + m);
    assert(shown[0] == digit_char(e_digits[0]));
    assert(text[at + 1] == tail[0]);
    assert(tail[0] == if e < 0 { '-' } else { shown[0] });
    assert forall|k: int| 0 <= k < m implies text[at + 1 + e0 + k] == shown[k] by {
        assert(text[at + 1 + e0 + k] == tail[e0 + k]);
    }
    assert(text.subrange(at + 1 + e0, at + 1 + e0 + m) =~= shown);
    lemma_written_digits_read_back(text, at + 1 + e0, e_digits);
}

/// A number written with an exponent reads back.
proof fn lemma_scientific_reads_back(negative: bool, digits: Seq<u8>, scale: int)
    requires
        canonical(digits),
        scale_in_range(scale),
    ensures
        text_value(
            sign_text(negative) + digit_chars(digits) + seq!['e'] + integer_text(-scale),
        ) == Some(parts_value(negative, digits, scale)),
        is_json_number(
            sign_text(negative) + digit_chars(digits) + seq!['e'] + integer_text(-scale),
        ),
{
    let sign = sign_text(negative);
    let d = digit_chars(digits);
    let n = d.len() as int;
    let text = sign + d + seq!['e'] + integer_text(-scale);
    let s0 = sign.len() as int;
    let at = s0 + n;
    assert(d[0] == digit_char(digits[0]));
    assert(text.take(s0) =~= sign);
    lemma_sign_is_read(text, negative, d[0]);
    assert(text.subrange(s0, s0 + n) =~= d);
    assert(text[at] == 'e');
    lemma_written_digits_read_back(text, s0, digits);
    assert(digit_values(text.subrange(at, at)) =~= Seq::<u8>::empty());
    assert(digits + Seq::<u8>::empty() =~= digits);
    assert(text.skip(at + 1) =~= integer_text(-scale));
    lemma_exponent_reads_back(text, at, -scale);
}

/// What is written is a JSON number, and it reads back: the text that writes
/// a decimal is read as that decimal, unscaled integer and scale alike.
pub proof fn lemma_notation_reads_back(v: DecimalValue)
    requires
        scale_in_range(v.scale),
    ensures
        text_value(notation(v)) == Some(v),
        is_json_number(notation(v)),
{
    let negative = v.unscaled < 0;
    let digits = digits_of(magnitude(v.unscaled));
    let n = digits.len();
    lemma_value_of_digits(magnitude(v.unscaled));
    assert(parts_value(negative, digits, v.scale) == v);
    assert(digit_chars(digits).len() == n);
    if v.scale == 0 {
        lemma_whole_reads_back(negative, digits);
    } else if 0 < v.scale < n {
        lemma_split_reads_back(negative, digits, v.scale);
    } else if n <= v.scale <= n + MAX_LEADING_ZEROS {
        lemma_padded_reads_back(negative, digits, v.scale);
    } else {
        lemma_scientific_reads_back(negative, digits, v.scale);
    }
}

} // verus!
