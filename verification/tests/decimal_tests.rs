use bigdecimal::BigDecimal;
use currency_convert::decimal::Decimal;
use currency_convert::digits::{digits_product, reversed, strip_leading_zeros};
use currency_convert::parse::parse_decimal;
use currency_convert::render::{integer_digits, write_decimal};
use currency_convert::text::{chars_of, from_digit, to_digit};
use std::str::FromStr;

fn dec(text: &str) -> Decimal {
    parse_decimal(text).expect("a decimal")
}

fn shown(text: &str) -> String {
    write_decimal(&dec(text))
}

#[test]
fn digits_are_reversed() {
    assert_eq!(reversed(&vec![1, 2, 3]), vec![3, 2, 1]);
    assert_eq!(reversed(&vec![]), Vec::<u8>::new());
}

#[test]
fn leading_zeros_are_stripped() {
    assert_eq!(strip_leading_zeros(&vec![0, 0, 7, 0]), vec![7, 0]);
    assert_eq!(strip_leading_zeros(&vec![0, 0]), vec![0]);
    assert_eq!(strip_leading_zeros(&vec![]), vec![0]);
    assert_eq!(strip_leading_zeros(&vec![4, 2]), vec![4, 2]);
}

#[test]
fn digits_product_multiplies() {
    assert_eq!(digits_product(&vec![1, 2], &vec![3, 4]), vec![4, 0, 8]);
    assert_eq!(digits_product(&vec![9, 9, 9], &vec![9, 9, 9]), vec![9, 9, 8, 0, 0, 1]);
    assert_eq!(digits_product(&vec![1, 2, 3], &vec![0]), vec![0]);
    assert_eq!(digits_product(&vec![], &vec![7]), vec![0]);
}

#[test]
fn digits_product_agrees_with_bigdecimal() {
    let a = "123456789012345678901234567890123456789";
    let b = "987654321098765432109876543210";
    let ours = dec(a).checked_mul(&dec(b)).unwrap();
    let theirs = BigDecimal::from_str(a).unwrap() * BigDecimal::from_str(b).unwrap();
    assert_eq!(write_decimal(&ours), theirs.to_plain_string());
}

#[test]
fn integer_digits_of_numbers() {
    assert_eq!(integer_digits(0), vec![0]);
    assert_eq!(integer_digits(7), vec![7]);
    assert_eq!(integer_digits(1203), vec![1, 2, 0, 3]);
    assert_eq!(
        integer_digits(u64::MAX),
        vec![1, 8, 4, 4, 6, 7, 4, 4, 0, 7, 3, 7, 0, 9, 5, 5, 1, 6, 1, 5]
    );
}

#[test]
fn characters_and_digits() {
    assert_eq!(chars_of("a1é"), vec!['a', '1', 'é']);
    assert_eq!(to_digit('0'), Some(0));
    assert_eq!(to_digit('9'), Some(9));
    assert_eq!(to_digit('a'), None);
    assert_eq!(to_digit('/'), None);
    assert_eq!(to_digit(':'), None);
    assert_eq!(from_digit(0), '0');
    assert_eq!(from_digit(9), '9');
}

#[test]
fn parse_reads_plain_numbers() {
    let d = dec("100");
    assert_eq!(d.digits(), &vec![1, 0, 0]);
    assert_eq!(d.scale(), 0);
    assert!(!d.is_negative());
    let d = dec("92.50");
    assert_eq!(d.digits(), &vec![9, 2, 5, 0]);
    assert_eq!(d.scale(), 2);
    let d = dec("007.5");
    assert_eq!(d.digits(), &vec![7, 5]);
    assert_eq!(d.scale(), 1);
}

#[test]
fn parse_reads_signs_points_and_exponents() {
    assert_eq!(dec("+5"), dec("5"));
    assert!(dec("-5").is_negative());
    assert_eq!(dec(".5"), dec("0.5"));
    assert_eq!(dec("5.").scale(), 0);
    assert_eq!(dec("1e3").scale(), -3);
    assert_eq!(dec("1E3"), dec("1e3"));
    assert_eq!(dec("1.5e-2").scale(), 3);
    assert_eq!(dec("1.5e+2").scale(), -1);
    assert_eq!(dec("1e0007").scale(), -7);
}

#[test]
fn parse_reads_zero_without_sign() {
    let d = dec("-0.00");
    assert!(d.is_zero());
    assert!(!d.is_negative());
    assert_eq!(d.scale(), 2);
    assert_eq!(d.digits(), &vec![0]);
}

#[test]
fn parse_refuses_what_is_no_number() {
    for text in [
        "", "abc", "+", "-", ".", "e5", "1e", "1e+", "1x", "1.2.3", " 1", "1 ", "--1", "1e1.5",
        "inf", "NaN", "0x10", "１",
    ] {
        assert!(parse_decimal(text).is_none(), "{text:?} was read as a number");
    }
}

#[test]
fn parse_refuses_a_scale_out_of_range() {
    assert!(parse_decimal("1e9223372036854775808").is_some());
    assert!(parse_decimal("1e9223372036854775809").is_none());
    assert!(parse_decimal("1e-9223372036854775807").is_some());
    assert!(parse_decimal("1e-9223372036854775808").is_none());
    assert!(parse_decimal("0.1e-9223372036854775807").is_none());
    assert!(parse_decimal("1e99999999999999999999999999999999999999999999").is_none());
}

#[test]
fn from_parts_checks_and_shortens() {
    let d = Decimal::from_parts(true, vec![0, 0, 4, 2], 1).unwrap();
    assert_eq!(d, dec("-4.2"));
    let zero = Decimal::from_parts(true, vec![], -3).unwrap();
    assert!(zero.is_zero());
    assert!(!zero.is_negative());
    assert_eq!(zero.scale(), -3);
    assert!(Decimal::from_parts(false, vec![1, 10], 0).is_none());
}

#[test]
fn write_puts_the_point_where_the_scale_says() {
    assert_eq!(shown("100"), "100");
    assert_eq!(shown("92.00000"), "92.00000");
    assert_eq!(shown("-1.5"), "-1.5");
    assert_eq!(shown("0.92"), "0.92");
    assert_eq!(shown("0.05"), "0.05");
    assert_eq!(shown("0.00"), "0.00");
    assert_eq!(shown("0.0000005"), "0.0000005");
}

#[test]
fn write_uses_an_exponent_beyond_six_zeros() {
    assert_eq!(shown("0.00000005"), "5e-8");
    assert_eq!(shown("-0.000000012"), "-12e-9");
    assert_eq!(shown("1e3"), "1e3");
    assert_eq!(shown("12e-9223372036854775807"), "12e-9223372036854775807");
    assert_eq!(shown("1e9223372036854775808"), "1e9223372036854775808");
}

#[test]
fn what_is_written_reads_back() {
    for text in [
        "0", "7", "100", "92.00", "0.5", "-0.5", "0.000001", "0.00000001", "-123.456", "5e7",
        "5e-30", "-17e12",
    ] {
        let d = dec(text);
        assert_eq!(dec(&write_decimal(&d)), d, "{text}");
    }
}

#[test]
fn what_is_written_is_a_json_number() {
    for text in ["0", "100", "92.00", "0.5", "-0.5", "0.0000005", "5e-8", "1e3", "-17e12"] {
        let written = shown(text);
        let value: serde_json::Value = serde_json::from_str(&written).unwrap();
        assert!(value.is_number(), "{written}");
    }
}

#[test]
fn multiplication_is_exact() {
    let p = dec("100").checked_mul(&dec("0.92")).unwrap();
    assert_eq!(write_decimal(&p), "92.00");
    assert_eq!(p.scale(), 2);
    assert_eq!(p.digits(), &vec![9u8, 2, 0, 0]);
    let p = dec("-1.5").checked_mul(&dec("1.5")).unwrap();
    assert_eq!(p, dec("-2.25"));
    let p = dec("-1.5").checked_mul(&dec("-2")).unwrap();
    assert_eq!(p, dec("3.0"));
    let p = dec("-1.5").checked_mul(&dec("0")).unwrap();
    assert!(p.is_zero() && !p.is_negative());
}

#[test]
fn multiplication_refuses_a_scale_out_of_range() {
    let small = dec("1e-9223372036854775807");
    assert!(small.checked_mul(&dec("0.1")).is_none());
    assert!(small.checked_mul(&dec("1")).is_some());
    let large = dec("1e9223372036854775808");
    assert!(large.checked_mul(&dec("1e1")).is_none());
}

#[test]
fn division_is_bigdecimal_division() {
    let q = dec("1").checked_div(&dec("4")).unwrap();
    assert_eq!(q, dec("0.25"));
    let q = dec("0.92000").checked_div(&dec("1.00000")).unwrap();
    assert_eq!(write_decimal(&q), "0.92000");
    let q = dec("-3").checked_div(&dec("8")).unwrap();
    assert_eq!(q, dec("-0.375"));
    let r = dec("1").checked_div(&dec("3")).unwrap();
    assert_eq!(r.digits().len(), 100);
    assert_eq!(r.scale(), 100);
    assert!(r.digits().iter().all(|d| *d == 3));
}

#[test]
fn division_agrees_with_bigdecimal() {
    for (n, d) in [("1.00000", "0.92000"), ("22", "7"), ("-1", "6"), ("123.456", "-0.0078")] {
        let ours = dec(n).checked_div(&dec(d)).unwrap();
        let theirs = BigDecimal::from_str(n).unwrap() / BigDecimal::from_str(d).unwrap();
        let (unscaled, scale) = theirs.into_bigint_and_exponent();
        let (sign, digits) = unscaled.to_radix_be(10);
        let expected =
            Decimal::from_parts(sign == bigdecimal::num_bigint::Sign::Minus, digits, scale)
                .unwrap();
        assert_eq!(ours, expected, "{n} / {d}");
    }
}

#[test]
fn division_refuses_zero_and_scales_too_far_apart() {
    assert!(dec("1").checked_div(&dec("0")).is_none());
    assert!(dec("1").checked_div(&dec("0.000")).is_none());
    assert!(dec("0").checked_div(&dec("5")).is_some());
    let tiny = dec("1e-9223372036854775807");
    let huge = dec("1e9223372036854775807");
    assert!(tiny.checked_div(&huge).is_none());
    assert!(huge.checked_div(&tiny).is_none());
    assert!(tiny.checked_div(&dec("3")).is_none());
    // the scale of the quotient must leave room for one digit of the divisor
    // and for QUOTIENT_SCALE_MARGIN more: 2^63 - 1 - 1 - 2^32 is the largest
    assert!(dec("1e-9223372032559808511").checked_div(&dec("3")).is_none());
    assert!(dec("1e-9223372032559808510").checked_div(&dec("3")).is_some());
}

#[test]
fn a_copy_equals_what_it_was_copied_from() {
    let d = dec("-12.50");
    assert_eq!(d.clone(), d);
}
