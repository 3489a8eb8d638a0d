//! Dollar parsing and rendering.

use budget_server::money::{format_dollars, parse_dollar_string, to_title_case};

#[test]
fn parse_accepts_plain_integer() {
    assert_eq!(parse_dollar_string("12"), Ok(1200));
}

#[test]
fn parse_accepts_dollar_integer() {
    assert_eq!(parse_dollar_string("$12"), Ok(1200));
}

#[test]
fn parse_accepts_decimal() {
    assert_eq!(parse_dollar_string("12.34"), Ok(1234));
}

#[test]
fn parse_accepts_dollar_decimal() {
    assert_eq!(parse_dollar_string("$12.34"), Ok(1234));
}

#[test]
fn parse_rejects_empty() {
    assert_eq!(parse_dollar_string(""), Err(String::from("empty_dollar_string")));
}

#[test]
fn parse_rejects_letters() {
    assert_eq!(parse_dollar_string("abc"), Err(String::from("not_a_number")));
}

#[test]
fn parse_single_fraction_digit_scales() {
    assert_eq!(parse_dollar_string("12.3"), Ok(1230));
}

#[test]
fn parse_negative_amount() {
    assert_eq!(parse_dollar_string("-5"), Ok(-500));
}

#[test]
fn format_conventional_rendering() {
    assert_eq!(format_dollars(&1234), "$12.34");
    assert_eq!(format_dollars(&50000), "$500.00");
    assert_eq!(format_dollars(&5), "$0.05");
    assert_eq!(format_dollars(&50), "$0.50");
    assert_eq!(format_dollars(&0), "$0.00");
}

#[test]
fn format_after_parse_round_trips() {
    let cents = parse_dollar_string("$7.05").unwrap();
    assert_eq!(format_dollars(&cents), "$7.05");
    let whole = parse_dollar_string("12").unwrap();
    assert_eq!(format_dollars(&whole), "$12.00");
}

#[test]
fn title_case_plain_label() {
    assert_eq!(to_title_case(String::from("rent")), "Rent");
}

#[test]
fn title_case_skips_automatic_prefix() {
    assert_eq!(to_title_case(String::from("*netflix")), "*Netflix");
}

#[test]
fn title_case_empty_is_empty() {
    assert_eq!(to_title_case(String::new()), "");
}
