use bigdecimal::BigDecimal;
use currency_convert::decimal::Decimal;
use currency_convert::error::{ConversionError, Missing};
use currency_convert::parse::parse_decimal;
use currency_convert::rate::{check_rows, lookup, select_rows, Lookup, Rate};
use currency_convert::render::write_decimal;
use currency_convert::request::{parse_request, ConversionRequest};
use currency_convert::resolver::{apply_factor, convert, resolve, ConversionResult};
use std::str::FromStr;

fn num(text: &str) -> Decimal {
    parse_decimal(text).expect("a decimal")
}

fn rate(country: &str, value: &str) -> Rate {
    Rate { country: country.to_string(), value: num(value) }
}

fn usd_eur() -> Vec<Rate> {
    vec![rate("USD", "1.00000"), rate("EUR", "0.92000")]
}

fn request(money: &str, from: &str, to: &str) -> ConversionRequest {
    parse_request(money, from, to).expect("a valid request")
}

fn resolved(rows: &Vec<Rate>, money: &str, from: &str, to: &str) -> String {
    write_decimal(&resolve(rows, &request(money, from, to)).unwrap().amount)
}

#[test]
fn lookup_finds_a_row_by_its_code() {
    let rows = usd_eur();
    assert_eq!(lookup(&rows, &"USD".to_string()), Lookup::Single(0));
    assert_eq!(lookup(&rows, &"EUR".to_string()), Lookup::Single(1));
    assert_eq!(lookup(&rows, &"GBP".to_string()), Lookup::Missing);
    assert_eq!(lookup(&rows, &"usd".to_string()), Lookup::Missing);
    assert_eq!(lookup(&vec![], &"USD".to_string()), Lookup::Missing);
}

#[test]
fn lookup_reports_a_code_that_is_quoted_twice() {
    let rows = vec![rate("USD", "1"), rate("EUR", "0.92"), rate("USD", "1.01")];
    assert_eq!(lookup(&rows, &"USD".to_string()), Lookup::Repeated);
    assert_eq!(lookup(&rows, &"EUR".to_string()), Lookup::Single(1));
}

#[test]
fn select_rows_returns_the_rows_of_both_codes_in_order() {
    let table = vec![
        rate("GBP", "0.79"),
        rate("EUR", "0.92"),
        rate("JPY", "151.2"),
        rate("USD", "1"),
    ];
    let rows = select_rows(&table, &"USD".to_string(), &"EUR".to_string());
    assert_eq!(rows, vec![rate("EUR", "0.92"), rate("USD", "1")]);
    let rows = select_rows(&table, &"JPY".to_string(), &"JPY".to_string());
    assert_eq!(rows, vec![rate("JPY", "151.2")]);
    let rows = select_rows(&table, &"CHF".to_string(), &"USD".to_string());
    assert_eq!(rows, vec![rate("USD", "1")]);
    assert_eq!(select_rows(&table, &"CHF".to_string(), &"SEK".to_string()), vec![]);
}

#[test]
fn check_rows_tells_a_missing_rate_from_a_broken_store() {
    let usd = "USD".to_string();
    let eur = "EUR".to_string();
    let gbp = "GBP".to_string();
    assert_eq!(check_rows(&usd_eur(), &usd, &eur), Ok(()));
    assert_eq!(check_rows(&usd_eur(), &usd, &usd), Ok(()));
    let not_found = |which| Err(ConversionError::RateNotFound(which));
    assert_eq!(check_rows(&usd_eur(), &usd, &gbp), not_found(Missing::Target));
    assert_eq!(check_rows(&usd_eur(), &gbp, &usd), not_found(Missing::Source));
    assert_eq!(check_rows(&usd_eur(), &gbp, &gbp), not_found(Missing::Both));
    assert_eq!(check_rows(&vec![], &usd, &eur), not_found(Missing::Both));
    let twice = vec![rate("USD", "1"), rate("USD", "1"), rate("EUR", "0.92")];
    assert_eq!(check_rows(&twice, &usd, &eur), Err(ConversionError::InternalError));
    // a missing rate is reported before a repeated one
    assert_eq!(check_rows(&twice, &usd, &gbp), not_found(Missing::Target));
}

#[test]
fn request_needs_a_non_negative_amount_and_two_codes() {
    let r = request("100", "USD", "EUR");
    assert_eq!(r.amount(), &num("100"));
    assert_eq!(r.source(), "USD");
    assert_eq!(r.target(), "EUR");
    assert!(parse_request("0", "USD", "USD").is_ok());
    assert!(parse_request("-0", "USD", "EUR").is_ok());
    assert_eq!(parse_request("abc", "USD", "EUR"), Err(ConversionError::InvalidInput));
    assert_eq!(parse_request("", "USD", "EUR"), Err(ConversionError::InvalidInput));
    assert_eq!(parse_request("-1", "USD", "EUR"), Err(ConversionError::InvalidInput));
    assert_eq!(parse_request("1", "", "EUR"), Err(ConversionError::InvalidInput));
    assert_eq!(parse_request("1", "USD", ""), Err(ConversionError::InvalidInput));
    assert_eq!(
        ConversionRequest::new(num("-0.01"), "USD".to_string(), "EUR".to_string()),
        Err(ConversionError::InvalidInput)
    );
    assert_eq!(request("5", "USD", "EUR").clone(), request("5", "USD", "EUR"));
}

#[test]
fn same_currency_returns_the_amount_unchanged() {
    let rows = usd_eur();
    let result = resolve(&rows, &request("123.4500", "EUR", "EUR")).unwrap();
    assert_eq!(result.amount, num("123.4500"));
    assert_eq!(resolved(&rows, "123.4500", "EUR", "EUR"), "123.4500");
    // one row serves both sides
    let only = vec![rate("EUR", "0.92000")];
    assert_eq!(resolved(&only, "7", "EUR", "EUR"), "7");
    // no division is made: a rate of zero does not matter
    let zero = vec![rate("XTS", "0")];
    assert_eq!(resolved(&zero, "7", "XTS", "XTS"), "7");
}

#[test]
fn usd_to_eur_and_back() {
    let rows = usd_eur();
    assert_eq!(resolved(&rows, "100", "USD", "EUR"), "92.00000");
    let back = resolved(&rows, "92", "EUR", "USD");
    let back = bigdecimal_of(&back);
    let hundred = bigdecimal_of("100");
    let tolerance = bigdecimal_of("1e-90");
    assert!((back - hundred).abs() < tolerance);
}

fn bigdecimal_of(text: &str) -> BigDecimal {
    BigDecimal::from_str(text).unwrap()
}

#[test]
fn the_order_of_the_rows_does_not_matter() {
    let forwards = usd_eur();
    let backwards = vec![rate("EUR", "0.92000"), rate("USD", "1.00000")];
    for (money, from, to) in [("100", "USD", "EUR"), ("92", "EUR", "USD"), ("5", "USD", "USD")] {
        assert_eq!(
            resolved(&forwards, money, from, to),
            resolved(&backwards, money, from, to)
        );
    }
}

#[test]
fn rows_of_other_currencies_are_passed_over() {
    let rows = vec![rate("GBP", "0.79"), rate("USD", "1"), rate("JPY", "150"), rate("EUR", "0.5")];
    assert_eq!(resolved(&rows, "10", "USD", "EUR"), "5.0");
    assert_eq!(resolved(&rows, "10", "EUR", "USD"), "20");
}

#[test]
fn the_result_is_the_amount_times_the_quotient_of_the_rates() {
    let rows = vec![rate("AAA", "8"), rate("BBB", "3")];
    let request = request("2.50", "AAA", "BBB");
    let factor = num("3").checked_div(&num("8")).unwrap();
    assert_eq!(factor, num("0.375"));
    let expected = num("2.50").checked_mul(&factor).unwrap();
    assert_eq!(expected, num("0.93750"));
    assert_eq!(resolve(&rows, &request), Ok(ConversionResult { amount: expected }));
    assert_eq!(
        convert(&num("2.50"), &num("8"), &num("3")),
        Ok(ConversionResult { amount: num("0.93750") })
    );
    assert_eq!(
        apply_factor(&num("2.50"), &num("0.375")),
        Ok(ConversionResult { amount: num("0.93750") })
    );
}

#[test]
fn conversion_is_linear() {
    let rows = vec![rate("USD", "1.00000"), rate("EUR", "0.92000"), rate("JPY", "151.37")];
    for (from, to) in [("USD", "EUR"), ("EUR", "JPY"), ("JPY", "USD"), ("EUR", "EUR")] {
        let once = resolve(&rows, &request("12.34", from, to)).unwrap().amount;
        let k = num("7.5");
        let scaled_amount = write_decimal(&k.checked_mul(&num("12.34")).unwrap());
        let scaled = resolve(&rows, &request(&scaled_amount, from, to)).unwrap().amount;
        assert_eq!(scaled, k.checked_mul(&once).unwrap(), "{from} to {to}");
    }
}

#[test]
fn a_round_trip_with_exact_factors_is_exact() {
    let rows = vec![rate("AAA", "1"), rate("BBB", "4")];
    let there = resolved(&rows, "2.5", "AAA", "BBB");
    assert_eq!(there, "10.0");
    let back = resolved(&rows, &there, "BBB", "AAA");
    assert_eq!(back, "2.500");
    assert_eq!(bigdecimal_of(&back), bigdecimal_of("2.5"));
}

#[test]
fn resolve_fails_inside_on_rows_that_do_not_fit_the_request() {
    let failed = Err(ConversionError::InternalError);
    assert_eq!(resolve(&vec![], &request("1", "USD", "EUR")), failed);
    assert_eq!(resolve(&vec![rate("USD", "1")], &request("1", "USD", "EUR")), failed);
    assert_eq!(resolve(&vec![rate("EUR", "1")], &request("1", "USD", "EUR")), failed);
    assert_eq!(resolve(&vec![rate("EUR", "1")], &request("1", "USD", "USD")), failed);
    let twice = vec![rate("USD", "1"), rate("EUR", "0.9"), rate("EUR", "0.8")];
    assert_eq!(resolve(&twice, &request("1", "USD", "EUR")), failed);
    assert_eq!(resolve(&twice, &request("1", "EUR", "EUR")), failed);
}

#[test]
fn a_source_rate_of_zero_fails_inside() {
    let rows = vec![rate("USD", "0"), rate("EUR", "0.92")];
    assert_eq!(
        resolve(&rows, &request("1", "USD", "EUR")),
        Err(ConversionError::InternalError)
    );
    // a target rate of zero converts everything to nothing
    assert_eq!(resolved(&rows, "1", "EUR", "USD"), "0");
    assert_eq!(convert(&num("1"), &num("0"), &num("2")), Err(ConversionError::InternalError));
}

#[test]
fn a_scale_out_of_range_fails_inside() {
    let tiny = "1e-9223372036854775807";
    assert_eq!(apply_factor(&num(tiny), &num("0.1")), Err(ConversionError::InternalError));
    assert_eq!(convert(&num("1"), &num("3"), &num(tiny)), Err(ConversionError::InternalError));
}
