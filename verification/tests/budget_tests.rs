//! The budget object: expenses, payments, the automatic batch, saving.

use budget_server::budget::Budget;

#[test]
fn fresh_budget_is_zeroed() {
    let b = Budget::new(String::from("a"));
    assert_eq!(b.username(), "a");
    assert_eq!(b.balance(), 0);
    assert_eq!(b.income(), 0);
    assert_eq!(b.saved(), 0);
    assert_eq!(b.expense_count(), 0);
}

#[test]
fn add_expense_lower_cases_and_seeds_zero() {
    let mut b = Budget::new(String::from("a"));
    b.add_expense("Rent", 50000);
    assert_eq!(b.expected_expense(&String::from("rent")), Some(50000));
    assert_eq!(b.current_expense(&String::from("rent")), Some(0));
    assert_eq!(b.expected_expense(&String::from("Rent")), None);
}

#[test]
fn add_expense_overwrites_and_resets() {
    let mut b = Budget::new(String::from("a"));
    b.add_expense("rent", 100);
    b.make_dynamic_payment("rent", 40).unwrap();
    b.add_expense("rent", 200);
    assert_eq!(b.expected_expense(&String::from("rent")), Some(200));
    assert_eq!(b.current_expense(&String::from("rent")), Some(0));
}

#[test]
fn pay_period_flow() {
    let mut b = Budget::new(String::from("a"));
    b.add_expense("Rent", 50000);
    b.set_income(100000);
    b.get_paid().unwrap();
    assert_eq!(b.balance(), 100000);
    b.make_static_payment("Rent").unwrap();
    assert_eq!(b.balance(), 50000);
    assert_eq!(b.current_expense(&String::from("rent")), Some(50000));
}

#[test]
fn dynamic_payment_moves_exact_amount() {
    let mut b = Budget::new(String::from("a"));
    b.add_expense("food", 10000);
    b.get_paid_value(20000);
    let msg = b.make_dynamic_payment("Food", 2500).unwrap();
    assert_eq!(msg, "Payment made: $25.00 to Food");
    assert_eq!(b.balance(), 17500);
    assert_eq!(b.current_expense(&String::from("food")), Some(2500));
}

#[test]
fn payment_to_unknown_label_fails_unchanged() {
    let mut b = Budget::new(String::from("a"));
    b.get_paid_value(1000);
    assert_eq!(b.make_static_payment("ghost"), Err(String::from("expense_not_found")));
    assert_eq!(b.balance(), 1000);
}

#[test]
fn automatic_batch_insufficient_changes_nothing() {
    let mut b = Budget::new(String::from("a"));
    b.add_expense("*netflix", 1500);
    b.add_expense("*spotify", 1000);
    b.get_paid_value(2000);
    let r = b.make_automatic_payments(2000);
    assert!(r.is_err());
    assert_eq!(b.balance(), 2000);
    assert_eq!(b.current_expense(&String::from("*netflix")), Some(0));
    assert_eq!(b.current_expense(&String::from("*spotify")), Some(0));
}

#[test]
fn automatic_batch_sufficient_pays_all() {
    let mut b = Budget::new(String::from("a"));
    b.add_expense("*netflix", 1500);
    b.add_expense("rent", 90000);
    b.get_paid_value(5000);
    let r = b.make_automatic_payments(5000);
    assert_eq!(r, Ok(3500));
    assert_eq!(b.balance(), 3500);
    assert_eq!(b.current_expense(&String::from("*netflix")), Some(1500));
    assert_eq!(b.current_expense(&String::from("rent")), Some(0));
}

#[test]
fn automatic_batch_without_autos_is_a_no_op() {
    let mut b = Budget::new(String::from("a"));
    b.add_expense("rent", 100);
    let r = b.make_automatic_payments(50);
    assert_eq!(r, Ok(-1));
    assert_eq!(b.balance(), 0);
}

#[test]
fn save_moves_funds_when_covered() {
    let mut b = Budget::new(String::from("a"));
    b.get_paid_value(1000);
    let msg = b.save(400).unwrap();
    assert_eq!(msg, "$4.00 saved!");
    assert_eq!(b.balance(), 600);
    assert_eq!(b.saved(), 400);
}

#[test]
fn save_beyond_balance_is_refused() {
    let mut b = Budget::new(String::from("a"));
    b.get_paid_value(100);
    assert_eq!(b.save(200), Err(String::from("Not enough in balance to save that much!")));
    assert_eq!(b.balance(), 100);
    assert_eq!(b.saved(), 0);
}

#[test]
fn save_all_empties_the_balance() {
    let mut b = Budget::new(String::from("a"));
    b.get_paid_value(750);
    b.save_all().unwrap();
    assert_eq!(b.balance(), 0);
    assert_eq!(b.saved(), 750);
}

#[test]
fn raise_income_adds() {
    let mut b = Budget::new(String::from("a"));
    b.set_income(100);
    b.add_income(50);
    assert_eq!(b.income(), 150);
}

#[test]
fn saturating_income_at_the_bound() {
    let mut b = Budget::new(String::from("a"));
    b.set_income(i64::MAX);
    b.add_income(1);
    assert_eq!(b.income(), i64::MAX);
}
