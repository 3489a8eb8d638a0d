//! The command table as clients drive it, body by body.

use budget_server::budget::Budget;
use budget_server::user_threads::{execute_command, CommandOutcome};

fn run(b: &mut Budget, body: &str) -> CommandOutcome {
    execute_command(b, body)
}

fn expect_done(b: &mut Budget, body: &str) -> String {
    match run(b, body) {
        CommandOutcome::Done(j) => j,
        CommandOutcome::Failed(m) => panic!("command failed: {}", m),
        CommandOutcome::BadJson => panic!("command body refused"),
    }
}

fn expect_failed(b: &mut Budget, body: &str) -> String {
    match run(b, body) {
        CommandOutcome::Failed(m) => m,
        _ => panic!("command should have failed"),
    }
}

#[test]
fn unreadable_body_is_bad_json() {
    let mut b = Budget::new(String::from("a"));
    assert!(matches!(run(&mut b, "nope"), CommandOutcome::BadJson));
    assert!(matches!(run(&mut b, "{\"x\":1"), CommandOutcome::BadJson));
}

#[test]
fn missing_command_field_is_bad_json() {
    let mut b = Budget::new(String::from("a"));
    assert!(matches!(run(&mut b, "{\"label\":\"x\"}"), CommandOutcome::BadJson));
}

#[test]
fn unknown_command_fails() {
    let mut b = Budget::new(String::from("a"));
    assert_eq!(expect_failed(&mut b, "{\"command\":\"fly\"}"), "invalid-command");
}

#[test]
fn non_string_command_fails_as_unknown() {
    let mut b = Budget::new(String::from("a"));
    assert_eq!(expect_failed(&mut b, "{\"command\":7}"), "invalid-command");
}

#[test]
fn new_command_error_codes() {
    let mut b = Budget::new(String::from("a"));
    assert_eq!(expect_failed(&mut b, "{\"command\":\"new\"}"), "missing_new_label_field");
    assert_eq!(
        expect_failed(&mut b, "{\"command\":\"new\",\"label\":3}"),
        "invalid_new_label_field"
    );
    assert_eq!(
        expect_failed(&mut b, "{\"command\":\"new\",\"label\":\"x\"}"),
        "missing_new_amount_field"
    );
    assert_eq!(
        expect_failed(&mut b, "{\"command\":\"new\",\"label\":\"x\",\"amount\":5}"),
        "invalid_new_amount_field"
    );
    assert_eq!(
        expect_failed(&mut b, "{\"command\":\"new\",\"label\":\"x\",\"amount\":\"abc\"}"),
        "invalid_new_amount_value"
    );
}

#[test]
fn register_then_expense_and_pay_flow() {
    let mut b = Budget::new(String::from("a"));
    let j1 = expect_done(&mut b, "{\"command\":\"new\",\"label\":\"Rent\",\"amount\":\"500.00\"}");
    assert!(j1.contains("\"rent\":50000"));
    assert_eq!(b.expected_expense(&String::from("rent")), Some(50000));
    expect_done(&mut b, "{\"command\":\"setincome\",\"amount\":\"1000\"}");
    assert_eq!(b.income(), 100000);
    expect_done(&mut b, "{\"command\":\"getpaid\"}");
    assert_eq!(b.balance(), 100000);
    expect_done(&mut b, "{\"command\":\"pay\",\"label\":\"Rent\"}");
    assert_eq!(b.balance(), 50000);
    assert_eq!(b.current_expense(&String::from("rent")), Some(50000));
}

#[test]
fn automatic_payment_overdraft_is_atomic() {
    let mut b = Budget::new(String::from("a"));
    expect_done(&mut b, "{\"command\":\"new\",\"label\":\"*Netflix\",\"amount\":\"15.00\"}");
    expect_done(&mut b, "{\"command\":\"new\",\"label\":\"*Spotify\",\"amount\":\"10.00\"}");
    expect_done(&mut b, "{\"command\":\"setincome\",\"amount\":\"20\"}");
    expect_done(&mut b, "{\"command\":\"getpaid\"}");
    assert_eq!(b.balance(), 2000);
    assert_eq!(b.current_expense(&String::from("*netflix")), Some(0));
    assert_eq!(b.current_expense(&String::from("*spotify")), Some(0));
}

#[test]
fn automatic_payments_run_when_covered() {
    let mut b = Budget::new(String::from("a"));
    expect_done(&mut b, "{\"command\":\"new\",\"label\":\"*Netflix\",\"amount\":\"15.00\"}");
    expect_done(&mut b, "{\"command\":\"setincome\",\"amount\":\"20\"}");
    expect_done(&mut b, "{\"command\":\"getpaid\"}");
    assert_eq!(b.balance(), 500);
    assert_eq!(b.current_expense(&String::from("*netflix")), Some(1500));
}

#[test]
fn getpaid_with_amount_credits_it() {
    let mut b = Budget::new(String::from("a"));
    expect_done(&mut b, "{\"command\":\"getpaid\",\"amount\":\"2.50\"}");
    assert_eq!(b.balance(), 250);
    assert_eq!(
        expect_failed(&mut b, "{\"command\":\"getpaid\",\"amount\":\"x\"}"),
        "invalid_paid_amount_value"
    );
}

#[test]
fn raiseincome_accumulates() {
    let mut b = Budget::new(String::from("a"));
    expect_done(&mut b, "{\"command\":\"setincome\",\"amount\":\"10\"}");
    expect_done(&mut b, "{\"command\":\"raiseincome\",\"amount\":\"2.50\"}");
    assert_eq!(b.income(), 1250);
    assert_eq!(
        expect_failed(&mut b, "{\"command\":\"raiseincome\"}"),
        "missing_raise_amount_field"
    );
}

#[test]
fn pay_error_codes() {
    let mut b = Budget::new(String::from("a"));
    assert_eq!(expect_failed(&mut b, "{\"command\":\"pay\"}"), "missing_payment_label_field");
    assert_eq!(
        expect_failed(&mut b, "{\"command\":\"pay\",\"label\":\"ghost\"}"),
        "expense_not_found"
    );
    assert_eq!(
        expect_failed(&mut b, "{\"command\":\"pay\",\"label\":\"x\",\"amount\":\"y\"}"),
        "invalid_payment_amount_value"
    );
}

#[test]
fn save_command_and_save_all() {
    let mut b = Budget::new(String::from("a"));
    expect_done(&mut b, "{\"command\":\"getpaid\",\"amount\":\"10\"}");
    expect_done(&mut b, "{\"command\":\"save\",\"amount\":\"4\"}");
    assert_eq!(b.saved(), 400);
    assert_eq!(b.balance(), 600);
    expect_done(&mut b, "{\"command\":\"save\",\"amount\":\"all\"}");
    assert_eq!(b.saved(), 1000);
    assert_eq!(b.balance(), 0);
    assert_eq!(
        expect_failed(&mut b, "{\"command\":\"save\",\"amount\":\"soon\"}"),
        "invalid_save_amount_value"
    );
    assert_eq!(
        expect_failed(&mut b, "{\"command\":\"save\",\"amount\":\"99\"}"),
        "Not enough in balance to save that much!"
    );
}

#[test]
fn command_bodies_tolerate_whitespace() {
    let mut b = Budget::new(String::from("a"));
    expect_done(&mut b, " { \"command\" : \"setincome\" , \"amount\" : \"5\" } ");
    assert_eq!(b.income(), 500);
}

#[test]
fn repeated_field_reads_as_the_last() {
    let mut b = Budget::new(String::from("a"));
    expect_done(&mut b, "{\"command\":\"setincome\",\"amount\":\"1\",\"amount\":\"2\"}");
    assert_eq!(b.income(), 200);
}

#[test]
fn escaped_label_works_end_to_end() {
    let mut b = Budget::new(String::from("a"));
    let json = expect_done(
        &mut b,
        "{\"command\":\"new\",\"label\":\"say \\\"hi\\\"\",\"amount\":\"1\"}",
    );
    assert!(json.contains("say \\\"hi\\\""));
    assert_eq!(b.expected_expense(&String::from("say \"hi\"")), Some(100));
    expect_done(&mut b, "{\"command\":\"getpaid\",\"amount\":\"5\"}");
    expect_done(&mut b, "{\"command\":\"pay\",\"label\":\"say \\\"hi\\\"\"}");
    assert_eq!(b.current_expense(&String::from("say \"hi\"")), Some(100));
    assert_eq!(b.balance(), 400);
}
