//! The canonical budget JSON: rendering, parsing, and the round trip.

use budget_server::budget::Budget;
use budget_server::json::{parse_budget, serialize_budget};

#[test]
fn fresh_budget_renders_canonically() {
    let b = Budget::new(String::from("a"));
    let s = serialize_budget(&b);
    assert_eq!(
        s,
        "{\"username\":\"a\",\"current_balance\":0,\"expected_income\":0,\
         \"expected_expenses\":{},\"current_expenses\":{},\"savings\":0}"
    );
}

#[test]
fn populated_budget_renders_entries_in_order() {
    let mut b = Budget::new(String::from("u"));
    b.add_expense("rent", 50000);
    b.add_expense("*netflix", 1500);
    b.set_income(1000);
    b.get_paid_value(-25);
    let s = serialize_budget(&b);
    assert_eq!(
        s,
        "{\"username\":\"u\",\"current_balance\":-25,\"expected_income\":1000,\
         \"expected_expenses\":{\"rent\":50000,\"*netflix\":1500},\
         \"current_expenses\":{\"rent\":0,\"*netflix\":0},\"savings\":0}"
    );
}

#[test]
fn round_trip_preserves_the_budget() {
    let mut b = Budget::new(String::from("someone"));
    b.add_expense("Rent", 50000);
    b.add_expense("*Spotify", 999);
    b.set_income(123456);
    b.get_paid_value(777);
    b.make_dynamic_payment("rent", 250).unwrap();
    b.save(100).unwrap();
    let s = serialize_budget(&b);
    let back = parse_budget(&s).unwrap();
    assert_eq!(back.username(), "someone");
    assert_eq!(back.balance(), b.balance());
    assert_eq!(back.income(), 123456);
    assert_eq!(back.saved(), 100);
    assert_eq!(back.expense_count(), 2);
    assert_eq!(back.expected_expense(&String::from("rent")), Some(50000));
    assert_eq!(back.current_expense(&String::from("rent")), Some(250));
    assert_eq!(back.expected_expense(&String::from("*spotify")), Some(999));
    assert_eq!(serialize_budget(&back), s);
}

#[test]
fn parse_reads_a_written_record() {
    let s = "{\"username\":\"x\",\"current_balance\":-7,\"expected_income\":12,\
             \"expected_expenses\":{\"a\":1,\"b\":2},\"current_expenses\":{\"a\":0,\"b\":5},\
             \"savings\":3}";
    let b = parse_budget(s).unwrap();
    assert_eq!(b.username(), "x");
    assert_eq!(b.balance(), -7);
    assert_eq!(b.income(), 12);
    assert_eq!(b.saved(), 3);
    assert_eq!(b.current_expense(&String::from("b")), Some(5));
}

#[test]
fn parse_rejects_malformed_records() {
    assert!(parse_budget("").is_none());
    assert!(parse_budget("{}").is_none());
    assert!(parse_budget("not json").is_none());
    assert!(parse_budget("{\"username\":\"a\"}").is_none());
    // mismatched expense keys between the two maps
    let bad = "{\"username\":\"x\",\"current_balance\":0,\"expected_income\":0,\
               \"expected_expenses\":{\"a\":1},\"current_expenses\":{\"b\":0},\"savings\":0}";
    assert!(parse_budget(bad).is_none());
    // trailing garbage
    let trailing = "{\"username\":\"x\",\"current_balance\":0,\"expected_income\":0,\
                    \"expected_expenses\":{},\"current_expenses\":{},\"savings\":0}x";
    assert!(parse_budget(trailing).is_none());
}

#[test]
fn parse_rejects_duplicate_labels() {
    let dup = "{\"username\":\"x\",\"current_balance\":0,\"expected_income\":0,\
               \"expected_expenses\":{\"a\":1,\"a\":2},\"current_expenses\":{\"a\":0,\"a\":0},\
               \"savings\":0}";
    assert!(parse_budget(dup).is_none());
}

#[test]
fn escaped_labels_round_trip() {
    let mut b = Budget::new(String::from("a\"b\\c"));
    b.add_expense("line\nbreak", 42);
    b.add_expense("tab\there", 7);
    let s = serialize_budget(&b);
    assert!(s.contains("a\\\"b\\\\c"));
    assert!(s.contains("line\\nbreak"));
    assert!(s.contains("tab\\there"));
    let back = parse_budget(&s).unwrap();
    assert_eq!(back.username(), "a\"b\\c");
    assert_eq!(back.expected_expense(&String::from("line\nbreak")), Some(42));
    assert_eq!(back.expected_expense(&String::from("tab\there")), Some(7));
    assert_eq!(serialize_budget(&back), s);
}

#[test]
fn parser_decodes_standard_escapes() {
    let s = "{\"username\":\"q\\\"w\\\\e\\/r\\b\\f\\n\\r\\t\",\"current_balance\":0,\
             \"expected_income\":0,\"expected_expenses\":{},\"current_expenses\":{},\"savings\":0}";
    let b = parse_budget(s).unwrap();
    assert_eq!(b.username(), "q\"w\\e/r\u{8}\u{c}\n\r\t");
}

#[test]
fn parser_rejects_bad_escapes_and_raw_controls() {
    let unknown = "{\"username\":\"a\\qb\",\"current_balance\":0,\"expected_income\":0,\
                   \"expected_expenses\":{},\"current_expenses\":{},\"savings\":0}";
    assert!(parse_budget(unknown).is_none());
    let raw_control = "{\"username\":\"a\u{1}b\",\"current_balance\":0,\"expected_income\":0,\
                       \"expected_expenses\":{},\"current_expenses\":{},\"savings\":0}";
    assert!(parse_budget(raw_control).is_none());
}
