//! The per-user budget: expected income, current balance, expense
//! categories and savings, all in integer cents.  Labels are lower-cased
//! before they are used as keys; a label with a `'*'` prefix marks an
//! automatic payment, executed as a batch by `get_paid`.
//!
//! Arithmetic saturates at the `i64` bounds instead of wrapping.

use vstd::prelude::*;
use crate::money::{format_dollars, sat_add_i64, sat_i64, sat_sub_i64, spec_format_dollars,
    spec_title_case, to_title_case, clamp_i128_to_i64};
use crate::text::{is_plain, lower, string_from_chars, to_lower_chars, chars_of_str};

verus! {

/// One expense category: its label (stored lower-cased), the expected
/// amount per period, and what has been paid in the current period.
pub struct Expense {
    pub label: String,
    pub expected: i64,
    pub current: i64,
}

/// Mathematical image of a budget; expense entries are
/// (label, expected, current) triples in insertion order.
pub ghost struct BudgetView {
    pub username: Seq<char>,
    pub current_balance: int,
    pub expected_income: int,
    pub entries: Seq<(Seq<char>, int, int)>,
    pub savings: int,
}

/// Index of the first entry carrying this label, or -1.
pub open spec fn idx_of(entries: Seq<(Seq<char>, int, int)>, l: Seq<char>) -> int
    decreases entries.len(),
{
    if entries.len() == 0 {
        -1
    } else if entries[0].0 == l {
        0
    } else {
        let r = idx_of(entries.skip(1), l);
        if r < 0 {
            -1
        } else {
            r + 1
        }
    }
}

pub proof fn lemma_idx_of(entries: Seq<(Seq<char>, int, int)>, l: Seq<char>)
    ensures
        -1 <= idx_of(entries, l) < entries.len(),
        idx_of(entries, l) >= 0 ==> entries[idx_of(entries, l)].0 == l,
        idx_of(entries, l) == -1 ==> forall|i: int|
            0 <= i < entries.len() ==> (#[trigger] entries[i]).0 != l,
        forall|i: int| 0 <= i < idx_of(entries, l) ==> (#[trigger] entries[i]).0 != l,
    decreases entries.len(),
{
    if entries.len() > 0 && entries[0].0 != l {
        lemma_idx_of(entries.skip(1), l);
        assert(forall|i: int|
            1 <= i < entries.len() ==> #[trigger] entries[i] == entries.skip(1)[i - 1]);
    }
}

impl BudgetView {
    /// Well-formed: the username and every label hold only characters
    /// that the canonical JSON form can carry verbatim, and labels are
    /// unique.
    pub open spec fn wf(self) -> bool {
        &&& is_plain(self.username)
        &&& forall|i: int| 0 <= i < self.entries.len() ==> is_plain((#[trigger] self.entries[i]).0)
        &&& forall|i: int, j: int|
            0 <= i < j < self.entries.len() ==> (#[trigger] self.entries[i]).0 != (
            #[trigger] self.entries[j]).0
    }

    /// The expected amount recorded under a label, if any.
    pub open spec fn expected_of(self, l: Seq<char>) -> Option<int> {
        if idx_of(self.entries, l) >= 0 {
            Some(self.entries[idx_of(self.entries, l)].1)
        } else {
            None
        }
    }

    /// The amount paid so far under a label, if any.
    pub open spec fn current_of(self, l: Seq<char>) -> Option<int> {
        if idx_of(self.entries, l) >= 0 {
            Some(self.entries[idx_of(self.entries, l)].2)
        } else {
            None
        }
    }
}

/// An automatic payment: the label carries the `'*'` prefix.
pub open spec fn is_auto(e: (Seq<char>, int, int)) -> bool {
    e.0.len() > 0 && e.0[0] == '*'
}

/// Sum of the expected amounts of the automatic entries.
pub open spec fn auto_total(entries: Seq<(Seq<char>, int, int)>) -> int
    decreases entries.len(),
{
    if entries.len() == 0 {
        0
    } else {
        (if is_auto(entries.last()) {
            entries.last().1
        } else {
            0
        }) + auto_total(entries.drop_last())
    }
}

/// Entries after the automatic payments among the first `k` were paid:
/// each such entry's current amount grows by its expected amount.
pub open spec fn pay_autos(entries: Seq<(Seq<char>, int, int)>, k: int) -> Seq<
    (Seq<char>, int, int),
> {
    Seq::new(
        entries.len(),
        |i: int|
            if 0 <= i < k && is_auto(entries[i]) {
                (entries[i].0, entries[i].1, sat_i64(entries[i].2 + entries[i].1))
            } else {
                entries[i]
            },
    )
}

/// The balance after paying the automatic entries among the first `k`,
/// one saturating subtraction per payment.
pub open spec fn deduct_autos(balance: int, entries: Seq<(Seq<char>, int, int)>, k: int) -> int
    decreases k,
{
    if k <= 0 {
        balance
    } else {
        let b = deduct_autos(balance, entries, k - 1);
        if is_auto(entries[k - 1]) {
            sat_i64(b - entries[k - 1].1)
        } else {
            b
        }
    }
}

/// Every amount of the view lies in the `i64` range.
pub open spec fn bounded_view(b: BudgetView) -> bool {
    &&& i64::MIN <= b.current_balance <= i64::MAX
    &&& i64::MIN <= b.expected_income <= i64::MAX
    &&& i64::MIN <= b.savings <= i64::MAX
    &&& forall|i: int|
        0 <= i < b.entries.len() ==> i64::MIN <= (#[trigger] b.entries[i]).1 <= i64::MAX
            && i64::MIN <= b.entries[i].2 <= i64::MAX
}

/// The per-user budget object.
pub struct Budget {
    username: String,
    current_balance: i64,
    expected_income: i64,
    expenses: Vec<Expense>,
    savings: i64,
}

impl View for Budget {
    type V = BudgetView;

    closed spec fn view(&self) -> BudgetView {
        BudgetView {
            username: self.username@,
            current_balance: self.current_balance as int,
            expected_income: self.expected_income as int,
            entries: self.expenses@.map_values(
                |e: Expense| (e.label@, e.expected as int, e.current as int),
            ),
            savings: self.savings as int,
        }
    }
}

impl Budget {
    /// A fresh budget for this user: everything zero, no expenses.
    pub fn new(name: String) -> (r: Budget)
        ensures
            r@.username == name@,
            r@.current_balance == 0,
            r@.expected_income == 0,
            r@.entries == Seq::<(Seq<char>, int, int)>::empty(),
            r@.savings == 0,
            is_plain(name@) ==> r@.wf(),
    {
        let r = Budget {
            username: name,
            expected_income: 0,
            current_balance: 0,
            expenses: Vec::new(),
            savings: 0,
        };
        proof {
            assert(r@.entries =~= Seq::<(Seq<char>, int, int)>::empty());
        }
        r
    }

    /// Sets the expected income.
    pub fn set_income(&mut self, cents: i64)
        ensures
            final(self)@ == (BudgetView { expected_income: cents as int, ..old(self)@ }),
    {
        self.expected_income = cents;
    }

    /// Adds to the expected income, saturating at the `i64` bounds.
    pub fn add_income(&mut self, cents: i64)
        ensures
            final(self)@ == (BudgetView {
                expected_income: sat_i64(old(self)@.expected_income + cents),
                ..old(self)@
            }),
    {
        let v = sat_add_i64(self.expected_income, cents);
        self.set_income(v);
    }

    /// Adds the given amount to the current balance, saturating.
    pub fn get_paid_value(&mut self, cents: i64)
        ensures
            final(self)@ == (BudgetView {
                current_balance: sat_i64(old(self)@.current_balance + cents),
                ..old(self)@
            }),
    {
        self.current_balance = sat_add_i64(self.current_balance, cents);
    }

    /// Resets every current expense amount to zero.
    pub fn refresh(&mut self)
        ensures
            final(self)@ == (BudgetView {
                entries: Seq::new(
                    old(self)@.entries.len(),
                    |i: int| (old(self)@.entries[i].0, old(self)@.entries[i].1, 0int),
                ),
                ..old(self)@
            }),
    {
        let ghost orig = old(self).expenses@;
        let mut i: usize = 0;
        while i < self.expenses.len()
            invariant
                i <= self.expenses@.len(),
                self.expenses@.len() == orig.len(),
                self.username == old(self).username,
                self.current_balance == old(self).current_balance,
                self.expected_income == old(self).expected_income,
                self.savings == old(self).savings,
                orig == old(self).expenses@,
                forall|j: int|
                    0 <= j < i ==> (#[trigger] self.expenses@[j]).label == orig[j].label
                        && self.expenses@[j].expected == orig[j].expected
                        && self.expenses@[j].current == 0,
                forall|j: int| i <= j < orig.len() ==> #[trigger] self.expenses@[j] == orig[j],
            decreases self.expenses@.len() - i,
        {
            self.expenses[i].current = 0;
            i = i + 1;
        }
        proof {
            assert(final(self)@.entries =~= Seq::new(
                old(self)@.entries.len(),
                |i: int| (old(self)@.entries[i].0, old(self)@.entries[i].1, 0int),
            ));
        }
    }

    /// Index of the entry holding this (already lower-cased) label.
    fn find_expense(&self, label: &String) -> (r: Option<usize>)
        ensures
            r matches Some(i) ==> i == idx_of(self@.entries, label@) && i < self@.entries.len(),
            r is None ==> idx_of(self@.entries, label@) == -1,
    {
        proof {
            lemma_idx_of(self@.entries, label@);
        }
        let mut i: usize = 0;
        while i < self.expenses.len()
            invariant
                i <= self.expenses@.len(),
                self@.entries.len() == self.expenses@.len(),
                forall|j: int| 0 <= j < i ==> (#[trigger] self@.entries[j]).0 != label@,
            decreases self.expenses@.len() - i,
        {
            if self.expenses[i].label == *label {
                proof {
                    lemma_idx_of(self@.entries, label@);
                    let es = self@.entries;
                    let idx = idx_of(es, label@);
                    assert(es[i as int].0 == label@);
                    if idx == -1 {
                        assert(false);
                    } else if idx < i {
                        assert(es[idx].0 == label@);
                        assert(false);
                    } else if idx > i {
                        assert(es[i as int].0 != label@);
                        assert(false);
                    }
                }
                return Some(i);
            }
            i = i + 1;
        }
        None
    }

    /// Creates or overwrites the expense category for this label
    /// (lower-cased), with the given expected amount and a zero
    /// current amount.
    pub fn add_expense(&mut self, name: &str, cents: i64)
        ensures
            ({
                let l = lower(name@);
                let idx = idx_of(old(self)@.entries, l);
                &&& (idx >= 0 ==> final(self)@ == (BudgetView {
                    entries: old(self)@.entries.update(idx, (l, cents as int, 0int)),
                    ..old(self)@
                }))
                &&& (idx < 0 ==> final(self)@ == (BudgetView {
                    entries: old(self)@.entries.push((l, cents as int, 0int)),
                    ..old(self)@
                }))
            }),
            old(self)@.wf() && is_plain(name@) ==> final(self)@.wf(),
    {
        let cs = chars_of_str(name);
        let lowered = to_lower_chars(&cs);
        let label = string_from_chars(&lowered);
        proof {
            lemma_idx_of(old(self)@.entries, label@);
            if is_plain(name@) {
                assert forall|i: int| 0 <= i < label@.len() implies crate::text::is_plain_char(
                    #[trigger] label@[i],
                ) by {
                    assert(label@[i] == crate::text::lower_char(name@[i]));
                }
            }
        }
        match self.find_expense(&label) {
            Some(i) => {
                self.expenses[i].expected = cents;
                self.expenses[i].current = 0;
                proof {
                    let l = label@;
                    let idx = idx_of(old(self)@.entries, l);
                    assert(self@.entries =~= old(self)@.entries.update(
                        idx,
                        (l, cents as int, 0int),
                    ));
                }
            }
            None => {
                self.expenses.push(Expense { label, expected: cents, current: 0 });
                proof {
                    let l = lower(name@);
                    assert(self@.entries =~= old(self)@.entries.push((l, cents as int, 0int)));
                    if old(self)@.wf() && is_plain(name@) {
                        lemma_idx_of(old(self)@.entries, l);
                        assert(self@.wf());
                    }
                }
            }
        }
    }
    /// Pays the given amount into the category for this label
    /// (lower-cased): the balance drops by the amount, the category's
    /// current amount grows by it.  An unknown label is an error and
    /// changes nothing.
    pub fn make_dynamic_payment(&mut self, name: &str, cents: i64) -> (r: Result<String, String>)
        ensures
            ({
                let l = lower(name@);
                let idx = idx_of(old(self)@.entries, l);
                if idx >= 0 {
                    &&& final(self)@ == (BudgetView {
                        current_balance: sat_i64(old(self)@.current_balance - cents),
                        entries: old(self)@.entries.update(
                            idx,
                            (
                                old(self)@.entries[idx].0,
                                old(self)@.entries[idx].1,
                                sat_i64(old(self)@.entries[idx].2 + cents),
                            ),
                        ),
                        ..old(self)@
                    })
                    &&& r matches Ok(m) && m@ == "Payment made: "@ + spec_format_dollars(
                        cents as int,
                    ) + " to "@ + spec_title_case(l)
                } else {
                    &&& *final(self) == *old(self)
                    &&& r matches Err(e) && e@ == "expense_not_found"@
                }
            }),
            old(self)@.wf() ==> final(self)@.wf(),
    {
        let cs = chars_of_str(name);
        let lowered = to_lower_chars(&cs);
        let label = string_from_chars(&lowered);
        match self.find_expense(&label) {
            Some(i) => {
                let add = sat_add_i64(self.expenses[i].current, cents);
                self.expenses[i].current = add;
                self.current_balance = sat_sub_i64(self.current_balance, cents);
                proof {
                    let l = label@;
                    let idx = idx_of(old(self)@.entries, l);
                    assert(self@.entries =~= old(self)@.entries.update(
                        idx,
                        (
                            old(self)@.entries[idx].0,
                            old(self)@.entries[idx].1,
                            sat_i64(old(self)@.entries[idx].2 + cents),
                        ),
                    ));
                    if old(self)@.wf() {
                        assert(self@.wf());
                    }
                }
                let fd = format_dollars(&cents);
                let title = to_title_case(label);
                let mut m = String::from_str("Payment made: ");
                m.append(fd.as_str());
                m.append(" to ");
                m.append(title.as_str());
                Ok(m)
            }
            None => Err(String::from_str("expense_not_found")),
        }
    }

    /// Pays the expected amount of the category for this label
    /// (lower-cased); an unknown label is an error.
    pub fn make_static_payment(&mut self, name: &str) -> (r: Result<String, String>)
        ensures
            ({
                let l = lower(name@);
                let idx = idx_of(old(self)@.entries, l);
                if idx >= 0 {
                    let cents = old(self)@.entries[idx].1;
                    &&& final(self)@ == (BudgetView {
                        current_balance: sat_i64(old(self)@.current_balance - cents),
                        entries: old(self)@.entries.update(
                            idx,
                            (
                                old(self)@.entries[idx].0,
                                old(self)@.entries[idx].1,
                                sat_i64(old(self)@.entries[idx].2 + cents),
                            ),
                        ),
                        ..old(self)@
                    })
                    &&& r matches Ok(m) && m@ == "Payment made: "@ + spec_format_dollars(cents)
                        + " to "@ + spec_title_case(l)
                } else {
                    &&& *final(self) == *old(self)
                    &&& r matches Err(e) && e@ == "expense_not_found"@
                }
            }),
            old(self)@.wf() ==> final(self)@.wf(),
    {
        let cs = chars_of_str(name);
        let lowered = to_lower_chars(&cs);
        let label = string_from_chars(&lowered);
        let amount: i64 = match self.find_expense(&label) {
            Some(i) => self.expenses[i].expected,
            None => {
                return Err(String::from_str("expense_not_found"));
            }
        };
        let r = self.make_dynamic_payment(name, amount);
        proof {
            let l = lower(name@);
            let idx = idx_of(old(self)@.entries, l);
            assert(old(self)@.entries[idx].1 == amount as int);
        }
        r
    }

    /// Moves the given amount from the balance into savings; an amount
    /// beyond the balance is refused and changes nothing.
    pub fn save(&mut self, cents: i64) -> (r: Result<String, String>)
        ensures
            if old(self)@.current_balance < cents {
                &&& *final(self) == *old(self)
                &&& r matches Err(e) && e@ == "Not enough in balance to save that much!"@
            } else {
                &&& final(self)@ == (BudgetView {
                    current_balance: sat_i64(old(self)@.current_balance - cents),
                    savings: sat_i64(old(self)@.savings + cents),
                    ..old(self)@
                })
                &&& r matches Ok(m) && m@ == spec_format_dollars(cents as int) + " saved!"@
            },
            old(self)@.wf() ==> final(self)@.wf(),
    {
        if self.current_balance < cents {
            Err(String::from_str("Not enough in balance to save that much!"))
        } else {
            self.current_balance = sat_sub_i64(self.current_balance, cents);
            self.savings = sat_add_i64(self.savings, cents);
            let fd = format_dollars(&cents);
            let mut m = fd;
            m.append(" saved!");
            Ok(m)
        }
    }

    /// Moves the whole balance into savings.
    pub fn save_all(&mut self) -> (r: Result<String, String>)
        ensures
            final(self)@ == (BudgetView {
                current_balance: 0,
                savings: sat_i64(old(self)@.savings + old(self)@.current_balance),
                ..old(self)@
            }),
            r matches Ok(m) && m@ == spec_format_dollars(old(self)@.current_balance) + " saved!"@,
            old(self)@.wf() ==> final(self)@.wf(),
    {
        let b = self.current_balance;
        self.save(b)
    }

    /// Executes the batch of automatic payments against the given
    /// balance.  The batch is atomic: when the expected total exceeds
    /// the balance, nothing changes and the (negative) shortfall comes
    /// back as the error; otherwise every automatic category is paid
    /// and the remainder comes back.  A zero total changes nothing.
    pub fn make_automatic_payments(&mut self, cents: i64) -> (r: Result<i64, i64>)
        ensures
            ({
                let es = old(self)@.entries;
                let total = auto_total(es);
                if total == 0 {
                    *final(self) == *old(self) && (r matches Ok(v) && v == -1)
                } else if cents - total < 0 {
                    *final(self) == *old(self) && (r matches Err(v) && v as int == sat_i64(
                        cents - total,
                    ))
                } else {
                    &&& final(self)@ == (BudgetView {
                        current_balance: deduct_autos(old(self)@.current_balance, es, es.len() as int),
                        entries: pay_autos(es, es.len() as int),
                        ..old(self)@
                    })
                    &&& r matches Ok(v) && v as int == sat_i64(cents - total)
                }
            }),
            old(self)@.wf() ==> final(self)@.wf(),
    {
        let ghost es = self@.entries;
        let mut total: i128 = 0;
        let mut i: usize = 0;
        while i < self.expenses.len()
            invariant
                i <= self.expenses@.len(),
                es == self@.entries,
                self.expenses@.len() == es.len(),
                total as int == auto_total(es.take(i as int)),
                total as int <= i as int * 0x8000_0000_0000_0000,
                total as int >= -(i as int * 0x8000_0000_0000_0000),
            decreases self.expenses@.len() - i,
        {
            let is_a = {
                let lbl = self.expenses[i].label.as_str();
                if lbl.is_empty() {
                    false
                } else {
                    lbl.get_char(0) == '*'
                }
            };
            proof {
                assert(es.take(i + 1).drop_last() =~= es.take(i as int));
                assert(es.take(i + 1).last() == es[i as int]);
                assert(is_a == is_auto(es[i as int]));
            }
            if is_a {
                total = total + self.expenses[i].expected as i128;
            }
            i = i + 1;
        }
        proof {
            assert(es.take(es.len() as int) =~= es);
        }
        if total == 0 {
            return Ok(-1);
        }
        let pay: i128 = cents as i128 - total;
        if pay < 0 {
            return Err(clamp_i128_to_i64(pay));
        }
        // apply every automatic payment
        let ghost b0 = self@.current_balance;
        let mut k: usize = 0;
        while k < self.expenses.len()
            invariant
                k <= self.expenses@.len(),
                self.expenses@.len() == es.len(),
                self.username == old(self).username,
                self.expected_income == old(self).expected_income,
                self.savings == old(self).savings,
                es == old(self)@.entries,
                b0 == old(self)@.current_balance,
                self@.current_balance == deduct_autos(b0, es, k as int),
                self@.entries =~= pay_autos(es, k as int),
            decreases self.expenses@.len() - k,
        {
            let is_a = {
                let lbl = self.expenses[k].label.as_str();
                if lbl.is_empty() {
                    false
                } else {
                    lbl.get_char(0) == '*'
                }
            };
            proof {
                assert(self@.entries[k as int] == es[k as int]);
                assert(is_a == is_auto(es[k as int]));
            }
            let ghost pre_entries = self@.entries;
            if is_a {
                let amount = self.expenses[k].expected;
                let add = sat_add_i64(self.expenses[k].current, amount);
                self.expenses[k].current = add;
                self.current_balance = sat_sub_i64(self.current_balance, amount);
                proof {
                    assert(pre_entries[k as int] == es[k as int]);
                    assert(self@.entries[k as int] == (
                        es[k as int].0,
                        es[k as int].1,
                        sat_i64(es[k as int].2 + es[k as int].1),
                    ));
                    assert(forall|j: int|
                        0 <= j < es.len() && j != k ==> #[trigger] self@.entries[j]
                            == pre_entries[j]);
                }
            }
            proof {
                assert forall|j: int| 0 <= j < es.len() implies #[trigger] self@.entries[j]
                    == pay_autos(es, k + 1)[j] by {
                    assert(pay_autos(es, k as int)[j] == pre_entries[j]);
                }
                assert(self@.entries =~= pay_autos(es, k + 1));
            }
            k = k + 1;
        }
        proof {
            if old(self)@.wf() {
                assert(self@.wf());
            }
        }
        Ok(clamp_i128_to_i64(pay))
    }

    /// A pay period: current expenses reset, the expected income joins
    /// the balance, and the automatic payments are attempted against
    /// the new balance.
    pub fn get_paid(&mut self) -> (r: Result<String, String>)
        ensures
            ({
                let after_income = BudgetView {
                    current_balance: sat_i64(
                        old(self)@.current_balance + old(self)@.expected_income,
                    ),
                    entries: Seq::new(
                        old(self)@.entries.len(),
                        |i: int| (old(self)@.entries[i].0, old(self)@.entries[i].1, 0int),
                    ),
                    ..old(self)@
                };
                let es = after_income.entries;
                let total = auto_total(es);
                let cents = after_income.current_balance;
                if total == 0 {
                    final(self)@ == after_income && (r matches Ok(m) && m@
                        == Seq::<char>::empty())
                } else if cents - total < 0 {
                    final(self)@ == after_income && (r matches Err(m) && m@
                        == "You couldn't afford your automatic payments!"@)
                } else {
                    &&& final(self)@ == (BudgetView {
                        current_balance: deduct_autos(cents, es, es.len() as int),
                        entries: pay_autos(es, es.len() as int),
                        ..after_income
                    })
                    &&& r matches Ok(m) && m@ == "Payments made!"@
                }
            }),
            old(self)@.wf() ==> final(self)@.wf(),
    {
        self.refresh();
        let b = sat_add_i64(self.current_balance, self.expected_income);
        self.current_balance = b;
        match self.make_automatic_payments(b) {
            Ok(n) => {
                if n == -1 {
                    Ok(String::new())
                } else {
                    Ok(String::from_str("Payments made!"))
                }
            }
            Err(_n) => Err(String::from_str("You couldn't afford your automatic payments!")),
        }
    }

    /// Every concrete budget's view is bounded by the machine range.
    pub proof fn lemma_bounded(&self)
        ensures
            bounded_view(self@),
    {
    }

    /// The user this budget belongs to.
    pub fn username(&self) -> (r: &String)
        ensures
            r@ == self@.username,
    {
        &self.username
    }

    /// The current balance, in cents.
    pub fn balance(&self) -> (r: i64)
        ensures
            r as int == self@.current_balance,
    {
        self.current_balance
    }

    /// The expected income, in cents.
    pub fn income(&self) -> (r: i64)
        ensures
            r as int == self@.expected_income,
    {
        self.expected_income
    }

    /// The saved amount, in cents.
    pub fn saved(&self) -> (r: i64)
        ensures
            r as int == self@.savings,
    {
        self.savings
    }

    /// Number of expense categories.
    pub fn expense_count(&self) -> (r: usize)
        ensures
            r == self@.entries.len(),
    {
        self.expenses.len()
    }

    /// The label of the expense entry at this position.
    pub fn label_at(&self, i: usize) -> (r: &String)
        requires
            i < self@.entries.len(),
        ensures
            r@ == self@.entries[i as int].0,
    {
        &self.expenses[i].label
    }

    /// The expected amount of the expense entry at this position.
    pub fn expected_at(&self, i: usize) -> (r: i64)
        requires
            i < self@.entries.len(),
        ensures
            r as int == self@.entries[i as int].1,
    {
        self.expenses[i].expected
    }

    /// The amount paid so far in the expense entry at this position.
    pub fn current_at(&self, i: usize) -> (r: i64)
        requires
            i < self@.entries.len(),
        ensures
            r as int == self@.entries[i as int].2,
    {
        self.expenses[i].current
    }

    /// Rebuilds a budget from its parts, as the stored form has them.
    pub fn from_parts(
        username: String,
        current_balance: i64,
        expected_income: i64,
        expenses: Vec<Expense>,
        savings: i64,
    ) -> (r: Budget)
        ensures
            r@.username == username@,
            r@.current_balance == current_balance as int,
            r@.expected_income == expected_income as int,
            r@.savings == savings as int,
            r@.entries == expenses@.map_values(
                |e: Expense| (e.label@, e.expected as int, e.current as int),
            ),
    {
        Budget { username, current_balance, expected_income, expenses, savings }
    }

    /// The expected amount for a label, given lower-cased.
    pub fn expected_expense(&self, label: &String) -> (r: Option<i64>)
        ensures
            match r {
                Some(v) => self@.expected_of(label@) == Some(v as int),
                None => self@.expected_of(label@) is None,
            },
    {
        match self.find_expense(label) {
            Some(i) => Some(self.expenses[i].expected),
            None => None,
        }
    }

    /// The amount paid so far for a label, given lower-cased.
    pub fn current_expense(&self, label: &String) -> (r: Option<i64>)
        ensures
            match r {
                Some(v) => self@.current_of(label@) == Some(v as int),
                None => self@.current_of(label@) is None,
            },
    {
        match self.find_expense(label) {
            Some(i) => Some(self.expenses[i].current),
            None => None,
        }
    }
}

} // verus!
