//! Reading a decimal number from text.
//!
//! The notation is the one of decimal literals: an optional sign, digits with
//! an optional decimal point among them, and an optional exponent.
//!
//! ```text
//! number   = [sign] mantissa [exponent]
//! mantissa = digit+ ["." digit*] | "." digit+
//! exponent = ("e" | "E") [sign] digit+
//! sign     = "+" | "-"
//! ```

use crate::decimal::{parts_value, scale_in_range, signed, Decimal, DecimalValue};
use crate::digits::{all_digits, digits_value, lemma_prefix_value};
use crate::text::{chars_of, digit_of, is_digit, to_digit};
use vstd::prelude::*;

verus! {

/// Whether `c` is a sign.
pub open spec fn is_sign(c: char) -> bool {
    c == '+' || c == '-'
}

/// Whether `c` opens an exponent.
pub open spec fn is_exponent_mark(c: char) -> bool {
    c == 'e' || c == 'E'
}

/// Where the run of digits that starts at `i` ends: the first position from
/// `i` on that holds no digit, or the end of `s`.
pub open spec fn digits_end(s: Seq<char>, i: int) -> int
    decreases s.len() - i,
{
    if 0 <= i < s.len() && is_digit(s[i]) {
        digits_end(s, i + 1)
    } else {
        i
    }
}

/// The numbers that a string of ASCII digits writes, digit by digit.
pub open spec fn digit_values(s: Seq<char>) -> Seq<u8> {
    s.map_values(|c: char| digit_of(c))
}

/// The exponent that `s` holds from position `at` to its end: zero where
/// nothing is left, and `None` where what is left is no exponent.
pub open spec fn exponent_at(s: Seq<char>, at: int) -> Option<int> {
    if at == s.len() {
        Some(0)
    } else if 0 <= at < s.len() && is_exponent_mark(s[at]) {
        let with_sign = at + 1 < s.len() && is_sign(s[at + 1]);
        let negative = with_sign && s[at + 1] == '-';
        let from = if with_sign {
            at + 2
        } else {
            at + 1
        };
        let to = digits_end(s, from);
        if from < to && to == s.len() {
            Some(signed(negative, digits_value(digit_values(s.subrange(from, to)))))
        } else {
            None
        }
    } else {
        None
    }
}

/// The decimal that `s` writes, or `None` where `s` is not a number in the
/// notation of this module or its scale does not fit.
///
/// The digits before and after the point make up the unscaled integer; the
/// scale is the number of digits after the point less the exponent.
pub open spec fn text_value(s: Seq<char>) -> Option<DecimalValue> {
    let with_sign = s.len() > 0 && is_sign(s[0]);
    let negative = with_sign && s[0] == '-';
    let whole_from: int = if with_sign {
        1
    } else {
        0
    };
    let whole_to = digits_end(s, whole_from);
    let with_point = whole_to < s.len() && s[whole_to] == '.';
    let fraction_from = if with_point {
        whole_to + 1
    } else {
        whole_to
    };
    let fraction_to = if with_point {
        digits_end(s, fraction_from)
    } else {
        whole_to
    };
    let mantissa = digit_values(s.subrange(whole_from, whole_to)) + digit_values(
        s.subrange(fraction_from, fraction_to),
    );
    if mantissa.len() == 0 {
        None
    } else {
        match exponent_at(s, fraction_to) {
            None => None,
            Some(exponent) => {
                let scale = fraction_to - fraction_from - exponent;
                if scale_in_range(scale) {
                    Some(parts_value(negative, mantissa, scale))
                } else {
                    None
                }
            },
        }
    }
}

/// A run of digits from `from` that stops at `to` ends there.
pub proof fn lemma_digits_end(s: Seq<char>, from: int, to: int)
    requires
        0 <= from <= to <= s.len(),
        forall|k: int| from <= k < to ==> is_digit(s[k]),
        to == s.len() || !is_digit(s[to]),
    ensures
        digits_end(s, from) == to,
    decreases to - from,
{
    if from < to {
        lemma_digits_end(s, from + 1, to);
    }
}

/// Exponents up to this size are read exactly; a larger one puts every scale
/// out of range.
const EXPONENT_LIMIT: u128 = 36_893_488_147_419_103_232;

/// Reads the run of digits that starts at `from`, appends the numbers they
/// write to `out` and returns where the run ends.
fn scan_digits(s: &Vec<char>, from: usize, out: &mut Vec<u8>) -> (to: usize)
    requires
        from <= s.len(),
        all_digits(old(out)@),
    ensures
        from <= to <= s.len(),
        to == digits_end(s@, from as int),
        final(out)@ == old(out)@ + digit_values(s@.subrange(from as int, to as int)),
        all_digits(final(out)@),
{
    let mut i: usize = from;
    while i < s.len()
        invariant
            from <= i <= s.len(),
            forall|k: int| from <= k < i ==> is_digit(s@[k]),
            out@ == old(out)@ + digit_values(s@.subrange(from as int, i as int)),
            all_digits(out@),
        decreases s.len() - i,
    {
        match to_digit(s[i]) {
            None => {
                proof {
                    lemma_digits_end(s@, from as int, i as int);
                }
                return i;
            },
            Some(d) => {
                proof {
                    let before = s@.subrange(from as int, i as int);
                    let after = s@.subrange(from as int, i + 1);
                    assert(after =~= before.push(s@[i as int]));
                    assert(digit_values(after) =~= digit_values(before).push(d));
                    assert(old(out)@ + digit_values(after) =~= (old(out)@ + digit_values(
                        before,
                    )).push(d));
                }
                out.push(d);
                i = i + 1;
            },
        }
    }
    proof {
        lemma_digits_end(s@, from as int, i as int);
    }
    i
}

/// The number that `digits` writes where it is at most [`EXPONENT_LIMIT`],
/// and `None` where it is larger.
fn small_value(digits: &Vec<u8>) -> (r: Option<u128>)
    requires
        all_digits(digits@),
    ensures
        match r {
            Some(v) => v == digits_value(digits@) && v <= EXPONENT_LIMIT,
            None => digits_value(digits@) > EXPONENT_LIMIT,
        },
{
    let mut acc: u128 = 0;
    let mut i: usize = 0;
    assert(digits_value(digits@.take(0)) == 0);
    while i < digits.len()
        invariant
            i <= digits.len(),
            all_digits(digits@),
            acc == digits_value(digits@.take(i as int)),
            acc <= EXPONENT_LIMIT,
        decreases digits.len() - i,
    {
        let next: u128 = acc * 10 + digits[i] as u128;
        proof {
            let longer = digits@.take(i + 1);
            assert(longer.drop_last() =~= digits@.take(i as int));
            assert(longer.last() == digits@[i as int]);
            assert(next == digits_value(longer));
        }
        if next > EXPONENT_LIMIT {
            proof {
                lemma_prefix_value(digits@, i + 1);
            }
            return None;
        }
        acc = next;
        i = i + 1;
    }
    assert(digits@.take(digits.len() as int) =~= digits@);
    Some(acc)
}

/// Reads a decimal number: `Some` of the decimal that `text` writes, `None`
/// where [`text_value`] finds none in it.
pub fn parse_decimal(text: &str) -> (r: Option<Decimal>)
    ensures
        r is Some <==> text_value(text@) is Some,
        r matches Some(d) ==> text_value(text@) == Some(d@),
{
    let s: Vec<char> = chars_of(text);
    let n: usize = s.len();
    let mut negative: bool = false;
    let mut whole_from: usize = 0;
    if n > 0 && (s[0] == '+' || s[0] == '-') {
        negative = s[0] == '-';
        whole_from = 1;
    }
    let mut mantissa: Vec<u8> = Vec::new();
    let whole_to: usize = scan_digits(&s, whole_from, &mut mantissa);
    let mut fraction_from: usize = whole_to;
    let mut fraction_to: usize = whole_to;
    if whole_to < n && s[whole_to] == '.' {
        fraction_from = whole_to + 1;
        fraction_to = scan_digits(&s, fraction_from, &mut mantissa);
    }
    proof {
        let whole = digit_values(s@.subrange(whole_from as int, whole_to as int));
        let fraction = digit_values(s@.subrange(fraction_from as int, fraction_to as int));
        assert(mantissa@ =~= whole + fraction);
    }
    if mantissa.len() == 0 {
        return None;
    }
    let mut exponent: i128 = 0;
    if fraction_to < n {
        if !(s[fraction_to] == 'e' || s[fraction_to] == 'E') {
            return None;
        }
        let mut from: usize = fraction_to + 1;
        let mut exponent_negative: bool = false;
        if from < n && (s[from] == '+' || s[from] == '-') {
            exponent_negative = s[from] == '-';
            from = from + 1;
        }
        let mut exponent_digits: Vec<u8> = Vec::new();
        let to: usize = scan_digits(&s, from, &mut exponent_digits);
        if to == from || to != n {
            return None;
        }
        assert(exponent_digits@ =~= digit_values(s@.subrange(from as int, to as int)));
        match small_value(&exponent_digits) {
            None => {
                return None;
            },
            Some(v) => {
                exponent = if exponent_negative {
                    -(v as i128)
                } else {
                    v as i128
                };
            },
        }
    }
    let scale: i128 = (fraction_to - fraction_from) as i128 - exponent;
    if scale < i64::MIN as i128 || scale > i64::MAX as i128 {
        return None;
    }
    Decimal::from_parts(negative, mantissa, scale as i64)
}

} // verus!
